//! Which day file an entry goes to, what has to be done to that file first,
//! and what is read back.
//!
//! A day holds at most [`MAX_ENTRIES_PER_DAY`] entries. An entry's id is its
//! day and its place among the whole entries of that day's file, so it is the
//! same after every restart.

use crate::access::codec::{
    decode_day_file, encode_entry, entry_bytes, read_day, stored_views, AccessLogError,
    EntryFields, FieldsView, StoredEntry, StoredView, FORMAT_VERSION,
};
use crate::calendar::{day_key, day_key_of, SECS_PER_DAY};
use crate::seqs::at_most;
use crate::text::optional;
use crate::seqs::{lemma_only_step, only};
use crate::text::{
    all_digits, chars_of, copy_of, decimal, finishes_with, is_digit, push_decimal, same_text,
    ends_with, text_of, text_views,
};
use crate::textmap::{in_order, less_text, text_less, TextMap};
use crate::types::AccessEntry;
use crate::wire::{framed, put_bytes};
use vstd::prelude::*;
use vstd::slice::slice_subrange;

verus! {

/// The most entries one day may hold.
pub const MAX_ENTRIES_PER_DAY: u32 = 10_000;

/// The most entries one query may return.
pub const MAX_QUERY_LIMIT: u32 = 1_000;

/// How many days a day file is kept.
pub const RETENTION_DAYS: i64 = 30;

/// The most bytes a write that never finished can leave: one frame's length
/// and its content.
pub const MAX_TORN_TAIL_BYTES: usize = 2052;

// ---------------------------------------------------------------------------
// File names.
// ---------------------------------------------------------------------------

/// Exactly eight decimal digits.
pub open spec fn day_name(name: Seq<char>) -> bool {
    name.len() == 8 && all_digits(name)
}

/// The name of a day file that was set aside: the day and `.damaged`.
pub open spec fn damaged_name(name: Seq<char>) -> bool {
    finishes_with(name, ".damaged"@) && day_name(name.take(name.len() - ".damaged"@.len()))
}

fn is_day_chars(chars: &[char]) -> (yes: bool)
    ensures
        yes == day_name(chars@),
{
    if chars.len() != 8 {
        return false;
    }
    let mut i: usize = 0;
    while i < chars.len()
        invariant
            i <= chars.len(),
            chars@.len() == 8,
            forall|j: int| 0 <= j < i ==> is_digit(#[trigger] chars@[j]),
        decreases chars.len() - i,
    {
        let c = chars[i];
        if !('0' <= c && c <= '9') {
            assert(!is_digit(chars@[i as int]));
            return false;
        }
        i += 1;
    }
    true
}

/// Whether `name` is that of a day file.
pub fn is_day_file_name(name: &str) -> (yes: bool)
    ensures
        yes == day_name(name@),
{
    let chars = chars_of(name);
    is_day_chars(chars.as_slice())
}

/// Whether `name` is that of a day file that was set aside.
pub fn is_damaged_file_name(name: &str) -> (yes: bool)
    ensures
        yes == damaged_name(name@),
{
    let chars = chars_of(name);
    if !ends_with(chars.as_slice(), ".damaged") {
        return false;
    }
    let suffix = chars_of(".damaged");
    let day = slice_subrange(chars.as_slice(), 0, chars.len() - suffix.len());
    assert(day@ =~= name@.take(name@.len() - ".damaged"@.len()));
    is_day_chars(day)
}

/// The name under which a day's file is set aside.
pub fn damaged_file_name(day: &str) -> (name: String)
    ensures
        name@ == day@ + ".damaged"@,
{
    let mut name = copy_of(day);
    name.push_str(".damaged");
    name
}

/// The names of day files among `names`, newest day first.
pub fn day_files_newest_first(names: &Vec<String>) -> (days: Vec<String>)
    ensures
        forall|i: int, j: int|
            0 <= i < j < days@.len() ==> text_less(
                (#[trigger] days@[j])@,
                (#[trigger] days@[i])@,
            ),
        forall|i: int|
            0 <= i < days@.len() ==> day_name((#[trigger] days@[i])@) && (exists|k: int|
                0 <= k < names@.len() && names@[k]@ == days@[i]@),
        forall|k: int|
            0 <= k < names@.len() && day_name((#[trigger] names@[k])@) ==> (exists|i: int|
                0 <= i < days@.len() && days@[i]@ == names@[k]@),
{
    let mut found: TextMap<bool> = TextMap::new();
    let mut i: usize = 0;
    while i < names.len()
        invariant
            i <= names.len(),
            found.wf(),
            forall|k: int|
                0 <= k < i && day_name((#[trigger] names@[k])@) ==> found@.contains_key(
                    names@[k]@,
                ),
            forall|d: Seq<char>| #[trigger]
                found@.contains_key(d) ==> day_name(d) && (exists|k: int|
                    0 <= k < names@.len() && names@[k]@ == d),
        decreases names.len() - i,
    {
        if is_day_file_name(names[i].as_str()) {
            found.insert(names[i].as_str(), true);
        }
        i += 1;
    }
    let mut days: Vec<String> = Vec::new();
    let total: usize = found.len();
    let mut left: usize = total;
    proof {
        found.lemma_view();
    }
    while left > 0
        invariant
            found.wf(),
            left <= total,
            total == found.spec_keys().len(),
            in_order(found.spec_keys()),
            days@.len() == total - left,
            forall|k: int|
                0 <= k < days@.len() ==> (#[trigger] days@[k])@ == found.spec_keys()[total - 1 - k],
        decreases left,
    {
        left -= 1;
        days.push(copy_of(found.key_at(left)));
    }
    proof {
        assert forall|a: int, b: int| 0 <= a < b < days@.len() implies text_less(
            (#[trigger] days@[b])@,
            (#[trigger] days@[a])@,
        ) by {
            assert(text_less(found.spec_keys()[total - 1 - b], found.spec_keys()[total - 1 - a]));
        }
        assert forall|a: int| 0 <= a < days@.len() implies day_name((#[trigger] days@[a])@) && (
        exists|k: int| 0 <= k < names@.len() && names@[k]@ == days@[a]@) by {
            assert(found@.contains_key(found.spec_keys()[total - 1 - a]));
        }
        assert forall|k: int|
            0 <= k < names@.len() && day_name((#[trigger] names@[k])@) implies exists|a: int|
            0 <= a < days@.len() && days@[a]@ == names@[k]@ by {
            let key = names@[k]@;
            let at = found.spec_keys().index_of(key);
            assert(found.spec_keys().contains(key));
            assert(found.spec_keys()[at] == key);
            assert(days@[total - 1 - at]@ == key);
        }
    }
    days
}

/// The day from which files are kept at `now`.
pub open spec fn cutoff_of(now: i64) -> Seq<char> {
    day_key_of(now - 2_592_000)
}

/// A file of the log that is past its time at `now`: a day file, or one set
/// aside, of a day before the first that is kept.
pub open spec fn expired_name(name: Seq<char>, now: i64) -> bool {
    ||| day_name(name) && text_less(name, cutoff_of(now))
    ||| damaged_name(name) && text_less(
        name.take(name.len() - ".damaged"@.len()),
        cutoff_of(now),
    )
}

fn is_expired(name: &str, cutoff: &str, Ghost(now): Ghost<i64>) -> (expired: bool)
    requires
        cutoff@ == cutoff_of(now),
    ensures
        expired == expired_name(name@, now),
{
    if is_day_file_name(name) && less_text(name, cutoff) {
        return true;
    }
    if !is_damaged_file_name(name) {
        return false;
    }
    let chars = chars_of(name);
    let suffix = chars_of(".damaged");
    let day = slice_subrange(chars.as_slice(), 0, chars.len() - suffix.len());
    assert(day@ =~= name@.take(name@.len() - ".damaged"@.len()));
    let text = text_of(day);
    less_text(text.as_str(), cutoff)
}

// ---------------------------------------------------------------------------
// Appending.
// ---------------------------------------------------------------------------

/// What has to be done to a day's file before it is appended to.
#[derive(Debug, Clone, Copy, PartialEq, Eq, Structural)]
pub enum Repair {
    /// Nothing: it is whole, or there is none.
    Keep,
    /// It is cut back to this many bytes, which a write that never finished
    /// had followed.
    Truncate(usize),
    /// It is set aside, and a new one starts: what could not be read is more
    /// than one write can leave.
    SetAside,
}

/// What has to be done to a day's file, and how many entries it then holds.
pub open spec fn repair_of(file: Seq<u8>) -> Result<(Repair, nat), u8> {
    match read_day(file) {
        Err(v) => Err(v),
        Ok((entries, good)) => if good == file.len() {
            Ok((Repair::Keep, entries.len()))
        } else if file.len() - good <= MAX_TORN_TAIL_BYTES {
            Ok((Repair::Truncate(good as usize), entries.len()))
        } else {
            Ok((Repair::SetAside, 0))
        },
    }
}

/// The sequence number of the entry that follows `count` entries.
pub open spec fn next_after(count: nat) -> u32 {
    if count >= u32::MAX {
        u32::MAX
    } else {
        (count + 1) as u32
    }
}

/// The next sequence number of each day that has been looked at.
#[derive(Debug)]
pub struct AccessLog {
    sequences: TextMap<u32>,
}

impl View for AccessLog {
    type V = Map<Seq<char>, u32>;

    closed spec fn view(&self) -> Map<Seq<char>, u32> {
        self.sequences@
    }
}

impl AccessLog {
    pub closed spec fn wf(self) -> bool {
        self.sequences.wf()
    }

    /// No day has been looked at.
    pub fn new() -> (log: AccessLog)
        ensures
            log.wf(),
            log@ == Map::<Seq<char>, u32>::empty(),
    {
        AccessLog { sequences: TextMap::new() }
    }

    /// The sequence number the next entry of `day` gets, where `day` has been
    /// looked at.
    pub fn next_sequence(&self, day: &str) -> (next: Option<u32>)
        requires
            self.wf(),
        ensures
            match next {
                Some(n) => self@.contains_key(day@) && self@[day@] == n,
                None => !self@.contains_key(day@),
            },
    {
        match self.sequences.get(day) {
            Some(n) => Some(*n),
            None => None,
        }
    }

    /// Looks at the file of `day`, where there is one, and says what has to
    /// be done to it before it is appended to.
    pub fn learn(&mut self, day: &str, file: Option<&[u8]>) -> (repair: Result<
        Repair,
        AccessLogError,
    >)
        requires
            old(self).wf(),
        ensures
            final(self).wf(),
            match file {
                None => repair == Ok::<_, AccessLogError>(Repair::Keep) && final(self)@ == old(
                    self,
                )@.insert(day@, 1),
                Some(bytes) => match repair_of(bytes@) {
                    Ok((r, count)) => repair == Ok::<_, AccessLogError>(r) && final(self)@ == old(
                        self,
                    )@.insert(day@, next_after(count)),
                    Err(v) => repair == Err::<Repair, _>(AccessLogError::UnknownFormat(v)) && final(
                        self)@ == old(self)@,
                },
            },
    {
        let mut repair = Repair::Keep;
        let mut count: usize = 0;
        match file {
            None => {},
            Some(bytes) => {
                match decode_day_file(bytes) {
                    Err(e) => {
                        return Err(e);
                    },
                    Ok((entries, good_len)) => {
                        assert(stored_views(entries@).len() == entries@.len());
                        let bad_len: usize = bytes.len() - good_len;
                        if bad_len == 0 {
                            count = entries.len();
                        } else if bad_len <= MAX_TORN_TAIL_BYTES {
                            count = entries.len();
                            repair = Repair::Truncate(good_len);
                        } else {
                            repair = Repair::SetAside;
                        }
                    },
                }
            },
        }
        let next: u32 = if count >= 4_294_967_295 {
            4_294_967_295
        } else {
            count as u32 + 1
        };
        self.sequences.insert(day, next);
        Ok(repair)
    }

    /// The bytes that append one entry to its day's file, dated
    /// `at_unix_secs`: the version byte where the file is empty or new, and
    /// the framed entry. `None` where the day is full. The day has been
    /// looked at.
    pub fn append(&self, at_unix_secs: i64, fields: &EntryFields, file_is_empty: bool) -> (frame:
        Option<Vec<u8>>)
        requires
            self.wf(),
            self@.contains_key(day_key_of(at_unix_secs as int)),
        ensures
            match frame {
                None => self@[day_key_of(at_unix_secs as int)] > MAX_ENTRIES_PER_DAY,
                Some(bytes) => self@[day_key_of(at_unix_secs as int)] <= MAX_ENTRIES_PER_DAY
                    && bytes@ == appended_bytes(
                    StoredView { fields: fields@, at: at_unix_secs },
                    file_is_empty,
                ),
            },
    {
        let day = day_key(at_unix_secs);
        match self.sequences.get(day.as_str()) {
            None => None,
            Some(next) => {
                if *next > MAX_ENTRIES_PER_DAY {
                    return None;
                }
                let mut frame: Vec<u8> = Vec::new();
                if file_is_empty {
                    frame.push(FORMAT_VERSION);
                }
                let content = encode_entry(fields, at_unix_secs);
                put_bytes(&mut frame, content.as_slice());
                assert(frame@ =~= appended_bytes(
                    StoredView { fields: fields@, at: at_unix_secs },
                    file_is_empty,
                ));
                Some(frame)
            },
        }
    }

    /// The bytes that [`AccessLog::append`] gave were written: the day's next
    /// entry comes after them.
    pub fn appended(&mut self, at_unix_secs: i64)
        requires
            old(self).wf(),
            old(self)@.contains_key(day_key_of(at_unix_secs as int)),
            old(self)@[day_key_of(at_unix_secs as int)] <= MAX_ENTRIES_PER_DAY,
        ensures
            final(self).wf(),
            final(self)@ == old(self)@.insert(
                day_key_of(at_unix_secs as int),
                (old(self)@[day_key_of(at_unix_secs as int)] + 1) as u32,
            ),
    {
        let day = day_key(at_unix_secs);
        let next: u32 = match self.sequences.get(day.as_str()) {
            Some(n) => *n + 1,
            None => 1,
        };
        self.sequences.insert(day.as_str(), next);
    }

    /// The files among `names` that are past their time at `now`, in order. A
    /// day that goes is no longer known.
    pub fn prune(&mut self, names: &Vec<String>, now: i64) -> (gone: Vec<String>)
        requires
            old(self).wf(),
            now >= -9_223_372_036_852_183_808,
        ensures
            final(self).wf(),
            text_views(gone@) == only(text_views(names@), |n: Seq<char>| expired_name(n, now)),
            final(self)@ == old(self)@.remove_keys(
                Set::new(
                    |d: Seq<char>| text_views(names@).contains(d) && day_name(d) && expired_name(d, now),
                ),
            ),
    {
        let cutoff = day_key(now - RETENTION_DAYS * SECS_PER_DAY);
        let ghost all = text_views(names@);
        let ghost test = |n: Seq<char>| expired_name(n, now);
        let ghost start = self@;
        let mut gone: Vec<String> = Vec::new();
        let mut i: usize = 0;
        assert(all.take(0) =~= Seq::<Seq<char>>::empty());
        assert(text_views(gone@) =~= only(all.take(0), test));
        let ghost out = |n: int|
            Set::new(|d: Seq<char>| all.take(n).contains(d) && day_name(d) && expired_name(d, now));
        assert(self@ =~= start.remove_keys(out(0)));
        while i < names.len()
            invariant
                i <= names.len(),
                self.wf(),
                cutoff@ == cutoff_of(now),
                all == text_views(names@),
                test == (|n: Seq<char>| expired_name(n, now)),
                out == (|n: int|
                    Set::new(
                        |d: Seq<char>|
                            all.take(n).contains(d) && day_name(d) && expired_name(d, now),
                    )),
                text_views(gone@) == only(all.take(i as int), test),
                self@ == start.remove_keys(out(i as int)),
            decreases names.len() - i,
        {
            let name = names[i].as_str();
            assert(all[i as int] == name@);
            proof {
                lemma_only_step(all, test, i as int);
                lemma_contains_step(all, i as int);
            }
            let ghost gone_before = text_views(gone@);
            if is_expired(name, cutoff.as_str(), Ghost(now)) {
                gone.push(copy_of(name));
                assert(text_views(gone@) =~= gone_before.push(name@));
                if is_day_file_name(name) {
                    let removed = self.sequences.remove(name);
                }
            }
            i += 1;
            assert(self@ =~= start.remove_keys(out(i as int)));
        }
        assert(all.take(all.len() as int) =~= all);
        assert(self@ =~= start.remove_keys(
            Set::new(
                |d: Seq<char>| text_views(names@).contains(d) && day_name(d) && expired_name(d, now),
            ),
        ));
        gone
    }
}

/// One element more.
proof fn lemma_contains_step(all: Seq<Seq<char>>, n: int)
    requires
        0 <= n < all.len(),
    ensures
        forall|d: Seq<char>| #[trigger]
            all.take(n + 1).contains(d) <==> all.take(n).contains(d) || d == all[n],
{
    let more = all.take(n + 1);
    let less = all.take(n);
    assert forall|d: Seq<char>| #[trigger] more.contains(d) <==> less.contains(d) || d == all[n] by {
        if more.contains(d) {
            let k = choose|k: int| 0 <= k < more.len() && more[k] == d;
            if k < n {
                assert(less[k] == d);
            }
        }
        if less.contains(d) {
            let k = choose|k: int| 0 <= k < less.len() && less[k] == d;
            assert(more[k] == d);
        }
        assert(more[n] == all[n]);
    }
}

/// The bytes that append `entry` to a day's file.
pub open spec fn appended_bytes(entry: StoredView, file_is_empty: bool) -> Seq<u8> {
    (if file_is_empty {
        seq![FORMAT_VERSION]
    } else {
        Seq::<u8>::empty()
    }) + framed(entry_bytes(entry))
}

// ---------------------------------------------------------------------------
// Asking.
// ---------------------------------------------------------------------------

/// What is known of one entry that a query returned.
pub struct FoundEntry {
    pub id: Seq<char>,
    pub entry: StoredView,
}

impl View for AccessEntry {
    type V = FoundEntry;

    open spec fn view(&self) -> FoundEntry {
        FoundEntry {
            id: self.id@,
            entry: StoredView {
                fields: FieldsView {
                    device: self.device_key_hex@,
                    actor: self.actor,
                    verb: self.verb,
                    path: self.path@,
                    bytes: self.bytes,
                    entries: self.entries,
                    files: self.files,
                },
                at: self.at_unix_secs,
            },
        }
    }
}

/// What some entries say.
pub open spec fn found_views(entries: Seq<AccessEntry>) -> Seq<FoundEntry> {
    entries.map_values(|e: AccessEntry| e@)
}

/// The entries of one day that a query is for, newest first. An entry's id is
/// the day and its place in the file, counted from one.
pub open spec fn found_in(
    day: Seq<char>,
    entries: Seq<StoredView>,
    device: Option<Seq<char>>,
) -> Seq<FoundEntry>
    decreases entries.len(),
{
    if entries.len() == 0 {
        Seq::empty()
    } else {
        let rest = found_in(day, entries.drop_last(), device);
        let last = entries.last();
        if device is None || device == Some(last.fields.device) {
            seq![FoundEntry { id: day + "-"@ + decimal(entries.len()), entry: last }] + rest
        } else {
            rest
        }
    }
}

/// The entries that a query is for in one day's file. A file that cannot be
/// read has none.
pub open spec fn found_in_file(day: Seq<char>, file: Seq<u8>, device: Option<Seq<char>>) -> Seq<
    FoundEntry,
> {
    match read_day(file) {
        Ok((entries, _)) => found_in(day, entries, device),
        Err(_) => Seq::empty(),
    }
}

/// A query while day files are read, newest day first.
pub struct Query {
    device: Option<String>,
    limit: usize,
    found: Vec<AccessEntry>,
}

impl Query {
    /// What was found so far.
    pub closed spec fn so_far(self) -> Seq<FoundEntry> {
        found_views(self.found@)
    }

    pub closed spec fn most(self) -> nat {
        self.limit as nat
    }

    pub closed spec fn of_device(self) -> Option<Seq<char>> {
        match self.device {
            Some(d) => Some(d@),
            None => None,
        }
    }

    /// A query for every device or for one, and for at most `limit` entries,
    /// which is never more than [`MAX_QUERY_LIMIT`].
    pub fn new(device_key_hex: Option<&str>, limit: u32) -> (query: Query)
        ensures
            query.so_far().len() == 0,
            query.most() == (if limit < MAX_QUERY_LIMIT {
                limit as nat
            } else {
                MAX_QUERY_LIMIT as nat
            }),
            query.of_device() == optional(device_key_hex),
    {
        let device: Option<String> = match device_key_hex {
            Some(d) => Some(copy_of(d)),
            None => None,
        };
        let bound: u32 = if limit < MAX_QUERY_LIMIT {
            limit
        } else {
            MAX_QUERY_LIMIT
        };
        Query { device, limit: bound as usize, found: Vec::new() }
    }

    /// Whether another day can add anything.
    pub fn wants_more(&self) -> (more: bool)
        ensures
            more == (self.so_far().len() < self.most()),
    {
        self.found.len() < self.limit
    }

    /// Reads one more day's file.
    pub fn add_day(&mut self, day: &str, file: &[u8])
        requires
            old(self).so_far().len() <= old(self).most(),
        ensures
            final(self).most() == old(self).most(),
            final(self).of_device() == old(self).of_device(),
            final(self).so_far() == at_most(
                old(self).so_far() + found_in_file(day@, file@, old(self).of_device()),
                old(self).most() as int,
            ),
    {
        let entries = match decode_day_file(file) {
            Ok((entries, _)) => entries,
            Err(_) => {
                assert(self.so_far() + Seq::<FoundEntry>::empty() =~= self.so_far());
                return ;
            },
        };
        let ghost all = stored_views(entries@);
        let ghost device = self.of_device();
        let ghost start = self.so_far();
        let ghost whole = found_in(day@, all, device);
        let mut left: usize = entries.len();
        let ghost mut done: Seq<FoundEntry> = Seq::empty();
        assert(all.take(left as int) =~= all);
        assert(done + found_in(day@, all.take(left as int), device) =~= whole);
        assert(start + done =~= start);
        while left > 0 && self.found.len() < self.limit
            invariant
                left <= entries@.len(),
                all == stored_views(entries@),
                self.limit == old(self).limit,
                self.device == old(self).device,
                device == self.of_device(),
                whole == found_in(day@, all, device),
                done + found_in(day@, all.take(left as int), device) == whole,
                self.so_far() == start + done,
                self.found@.len() <= self.limit,
            decreases left,
        {
            let stored = &entries[left - 1];
            assert(all.take(left as int).last() == stored@);
            assert(all.take(left as int).drop_last() =~= all.take(left - 1));
            let ghost rest = found_in(day@, all.take(left - 1), device);
            let wanted = match &self.device {
                None => true,
                Some(d) => same_text(d.as_str(), stored.fields.device_key_hex.as_str()),
            };
            let ghost before = self.so_far();
            if wanted {
                let mut id = copy_of(day);
                id.push_str("-");
                push_decimal(&mut id, left as u64);
                let entry = AccessEntry {
                    id,
                    device_key_hex: copy_of(stored.fields.device_key_hex.as_str()),
                    actor: stored.fields.actor,
                    verb: stored.fields.verb,
                    path: copy_of(stored.fields.path.as_str()),
                    bytes: stored.fields.bytes,
                    entries: stored.fields.entries,
                    files: stored.fields.files,
                    at_unix_secs: stored.at_unix_secs,
                };
                let ghost e = entry@;
                assert(e == FoundEntry {
                    id: day@ + "-"@ + decimal(left as nat),
                    entry: stored@,
                });
                self.found.push(entry);
                proof {
                    assert(self.so_far() =~= before.push(e));
                    assert(done + (seq![e] + rest) =~= done.push(e) + rest);
                    assert(before.push(e) =~= start + done.push(e));
                    done = done.push(e);
                }
            }
            left -= 1;
        }
        proof {
            let rest = found_in(day@, all.take(left as int), device);
            if left == 0 {
                assert(rest =~= Seq::<FoundEntry>::empty());
                assert(done =~= whole);
            } else {
                assert((start + whole).take(self.limit as int) =~= start + done);
                if (start + whole).len() <= self.limit {
                    assert(start + whole =~= start + done);
                }
            }
        }
    }

    /// What was found.
    pub fn into_found(self) -> (found: Vec<AccessEntry>)
        ensures
            found_views(found@) == self.so_far(),
    {
        self.found
    }
}

/// How many entries of `entries` are of `device`.
pub open spec fn count_of(entries: Seq<StoredView>, device: Seq<char>) -> nat
    decreases entries.len(),
{
    if entries.len() == 0 {
        0
    } else {
        count_of(entries.drop_last(), device) + (if entries.last().fields.device == device {
            1nat
        } else {
            0
        })
    }
}

proof fn lemma_count_of(entries: Seq<StoredView>, device: Seq<char>)
    ensures
        count_of(entries, device) <= entries.len(),
    decreases entries.len(),
{
    if entries.len() > 0 {
        lemma_count_of(entries.drop_last(), device);
    }
}

/// How many entries each device has among those of one day.
pub fn device_counts(entries: &Vec<StoredEntry>) -> (counts: TextMap<u32>)
    requires
        entries@.len() <= u32::MAX,
    ensures
        counts.wf(),
        forall|d: Seq<char>| #[trigger]
            counts@.contains_key(d) <==> count_of(stored_views(entries@), d) > 0,
        forall|d: Seq<char>| #[trigger]
            counts@.contains_key(d) ==> counts@[d] == count_of(stored_views(entries@), d),
{
    let ghost all = stored_views(entries@);
    let mut counts: TextMap<u32> = TextMap::new();
    let mut i: usize = 0;
    assert(all.take(0) =~= Seq::<StoredView>::empty());
    while i < entries.len()
        invariant
            i <= entries.len(),
            entries@.len() <= u32::MAX,
            all == stored_views(entries@),
            counts.wf(),
            forall|d: Seq<char>| #[trigger]
                counts@.contains_key(d) <==> count_of(all.take(i as int), d) > 0,
            forall|d: Seq<char>| #[trigger]
                counts@.contains_key(d) ==> counts@[d] == count_of(all.take(i as int), d),
        decreases entries.len() - i,
    {
        let device = entries[i].fields.device_key_hex.as_str();
        proof {
            assert(all.take(i + 1).drop_last() =~= all.take(i as int));
            assert(all.take(i + 1).last() == entries@[i as int]@);
            lemma_count_of(all.take(i as int), device@);
        }
        let before: u32 = match counts.get(device) {
            Some(n) => *n,
            None => 0,
        };
        assert(before == count_of(all.take(i as int), device@));
        counts.insert(device, before + 1);
        i += 1;
    }
    assert(all.take(all.len() as int) =~= all);
    counts
}

/// What a query for every device finds in a day are all the whole entries of
/// that day, a later one before an earlier one, each with its place as its id.
pub proof fn lemma_day_is_read_newest_first(day: Seq<char>, entries: Seq<StoredView>)
    ensures
        found_in(day, entries, None).len() == entries.len(),
        forall|i: int|
            0 <= i < entries.len() ==> #[trigger] found_in(day, entries, None)[i] == (FoundEntry {
                id: day + "-"@ + decimal((entries.len() - i) as nat),
                entry: entries[entries.len() - 1 - i],
            }),
    decreases entries.len(),
{
    if entries.len() > 0 {
        let front = entries.drop_last();
        let rest = found_in(day, front, None);
        let all = found_in(day, entries, None);
        lemma_day_is_read_newest_first(day, front);
        assert forall|i: int| 0 <= i < entries.len() implies #[trigger] all[i] == (FoundEntry {
            id: day + "-"@ + decimal((entries.len() - i) as nat),
            entry: entries[entries.len() - 1 - i],
        }) by {
            if i > 0 {
                assert(all[i] == rest[i - 1]);
            }
        }
    }
}

/// What a query for one device finds in a day is what a query for every device
/// finds there, less the entries of other devices.
pub proof fn lemma_query_is_for_one_device(
    day: Seq<char>,
    entries: Seq<StoredView>,
    device: Seq<char>,
)
    ensures
        forall|i: int|
            0 <= i < found_in(day, entries, Some(device)).len() ==> (#[trigger] found_in(
                day,
                entries,
                Some(device),
            )[i]).entry.fields.device == device && found_in(day, entries, None).contains(
                found_in(day, entries, Some(device))[i],
            ),
        forall|f: FoundEntry|
            f.entry.fields.device == device && #[trigger] found_in(day, entries, None).contains(f)
                ==> found_in(day, entries, Some(device)).contains(f),
    decreases entries.len(),
{
    if entries.len() > 0 {
        let front = entries.drop_last();
        let last = entries.last();
        lemma_query_is_for_one_device(day, front, device);
        let some = found_in(day, front, Some(device));
        let every = found_in(day, front, None);
        let here = FoundEntry { id: day + "-"@ + decimal(entries.len()), entry: last };
        let now_some = found_in(day, entries, Some(device));
        let now_every = found_in(day, entries, None);
        lemma_found_step(every, here);
        lemma_found_step(some, here);
        assert(now_every == seq![here] + every);
        assert forall|i: int| 0 <= i < now_some.len() implies (
        #[trigger] now_some[i]).entry.fields.device == device && now_every.contains(now_some[i]) by {
            if last.fields.device == device {
                if i > 0 {
                    assert(now_some[i] == some[i - 1]);
                }
            } else {
                assert(now_some[i] == some[i]);
            }
        }
    }
}

proof fn lemma_found_step(found: Seq<FoundEntry>, here: FoundEntry)
    ensures
        forall|f: FoundEntry|
            #[trigger] (seq![here] + found).contains(f) <==> f == here || found.contains(f),
{
    let all = seq![here] + found;
    assert forall|f: FoundEntry| #[trigger] all.contains(f) <==> f == here || found.contains(f) by {
        assert(all[0] == here);
        if all.contains(f) {
            let i = choose|i: int| 0 <= i < all.len() && all[i] == f;
            if i > 0 {
                assert(found[i - 1] == f);
            }
        }
        if found.contains(f) {
            let i = choose|i: int| 0 <= i < found.len() && found[i] == f;
            assert(all[i + 1] == f);
        }
    }
}

/// An entry that was written to its day is the first that a query for its
/// device, or for every device, finds there, and a query for another device
/// does not find it; no query gives more than was asked for.
pub proof fn lemma_logged_entry_is_found(
    log: &AccessLog,
    at_unix_secs: i64,
    fields: &EntryFields,
    file: Seq<u8>,
    frame: Option<Vec<u8>>,
    device: Option<&str>,
    limit: u32,
    query: Query,
    run: &mut Query,
    day: &str,
    written: &[u8],
    done: Query,
    found: Vec<AccessEntry>,
)
    requires
        crate::access::codec::storable(fields@),
        file.len() == 0 || (read_day(file) matches Ok((entries, len)) && len == file.len()),
        call_ensures(AccessLog::append, (log, at_unix_secs, fields, file.len() == 0), frame),
        frame is Some,
        written@ == file + frame->0@,
        call_ensures(Query::new, (device, limit), query),
        *old(run) == query,
        call_ensures(Query::add_day, (run, day, written), ()),
        done == *final(run),
        call_ensures(Query::into_found, (done,), found),
    ensures
        found@.len() <= limit,
        limit > 0 && (optional(device) is None || optional(device) == Some(fields@.device))
            ==> found@.len() > 0 && found@[0]@.entry == (StoredView {
            fields: fields@,
            at: at_unix_secs,
        }),
        optional(device) is Some ==> (forall|i: int|
            0 <= i < found@.len() ==> Some((#[trigger] found@[i])@.entry.fields.device)
                == optional(device)),
{
    let entry = StoredView { fields: fields@, at: at_unix_secs };
    if file.len() == 0 {
        crate::access::codec::lemma_first_entry_reads_back(entry);
        assert(written@ =~= seq![FORMAT_VERSION] + framed(crate::access::codec::entry_bytes(entry)));
    } else {
        crate::access::codec::lemma_append_reads_back(file, entry);
        assert(written@ =~= file + framed(crate::access::codec::entry_bytes(entry)));
    }
    let entries = (read_day(written@)->Ok_0).0;
    assert(entries.len() > 0 && entries.last() == entry);
    let all = found_in(day@, entries, optional(device));
    if let Some(d) = optional(device) {
        lemma_query_is_for_one_device(day@, entries, d);
    }
    assert(query.so_far() + all =~= all);
    assert(found_views(found@) == at_most(all, query.most() as int));
    assert(found_views(found@).len() == found@.len());
    assert forall|i: int| 0 <= i < found@.len() implies (#[trigger] found@[i])@ == all[i] by {
        assert(found_views(found@)[i] == found@[i]@);
    }
}

/// What is younger than thirty days stays, and what is older goes: a day file
/// of a moment up to thirty days ago is kept, one of an earlier day is not,
/// and what is no day file of the log is never removed.
pub proof fn lemma_month_is_kept(
    log: &mut AccessLog,
    names: &Vec<String>,
    now: i64,
    gone: Vec<String>,
    moment: int,
    name: Seq<char>,
)
    requires
        call_ensures(AccessLog::prune, (log, names, now), gone),
        0 <= crate::dates::year_of(moment) <= 9999,
        0 <= crate::dates::year_of(now - 30 * 86_400) <= 9999,
    ensures
        name == day_key_of(moment) && moment >= now - 30 * 86_400 ==> !text_views(gone@).contains(
            name,
        ) && (old(log)@.contains_key(name) ==> final(log)@.contains_key(name)),
        name == day_key_of(moment) && day_name(name) && text_views(names@).contains(name) && moment
            / 86_400 < (now - 30 * 86_400) / 86_400 ==> text_views(gone@).contains(name)
            && !final(log)@.contains_key(name),
        !day_name(name) && !damaged_name(name) ==> !text_views(gone@).contains(name),
        text_views(gone@).contains(name) ==> text_views(names@).contains(name),
{
    let test = |n: Seq<char>| expired_name(n, now);
    let from = text_views(names@);
    let kept = text_views(gone@);
    crate::seqs::lemma_only(from, test);
    let edge = now - 30 * 86_400;
    if kept.contains(name) {
        let i = choose|i: int| 0 <= i < kept.len() && kept[i] == name;
        assert(test(kept[i]));
        assert(from.contains(kept[i]));
    }
    if name == day_key_of(moment) && moment >= edge {
        crate::dates::lemma_day_key_has_eight(moment);
        reveal_strlit(".damaged");
        if moment / 86_400 == edge / 86_400 {
            crate::textmap::lemma_less_one_way(name, name);
        } else {
            crate::dates::lemma_day_keys_in_order(edge, moment);
            crate::textmap::lemma_less_one_way(cutoff_of(now), name);
        }
        if damaged_name(name) {
            assert(name.take(name.len() - ".damaged"@.len()).len() == name.len()
                - ".damaged"@.len());
        }
        assert(!expired_name(name, now));
    }
    if name == day_key_of(moment) && day_name(name) && from.contains(name) && moment / 86_400 < edge
        / 86_400 {
        crate::dates::lemma_day_keys_in_order(moment, edge);
        let k = choose|k: int| 0 <= k < from.len() && from[k] == name;
        assert(test(from[k]));
    }
}

/// The days are read from the newest on: of two day files that are there the
/// later one comes first.
pub proof fn lemma_later_days_come_first(
    names: &Vec<String>,
    days: Vec<String>,
    earlier: int,
    later: int,
    i: int,
    j: int,
)
    requires
        call_ensures(day_files_newest_first, (names,), days),
        0 <= crate::dates::year_of(earlier) <= 9999,
        0 <= crate::dates::year_of(later) <= 9999,
        earlier / 86_400 < later / 86_400,
        0 <= i < days@.len(),
        0 <= j < days@.len(),
        days@[i]@ == day_key_of(later),
        days@[j]@ == day_key_of(earlier),
    ensures
        i < j,
        text_views(names@).contains(day_key_of(later)),
{
    crate::dates::lemma_day_keys_in_order(earlier, later);
    crate::textmap::lemma_less_one_way(day_key_of(earlier), day_key_of(later));
    if j < i {
        assert(text_less(days@[i]@, days@[j]@));
    }
    let k = choose|k: int| 0 <= k < names@.len() && names@[k]@ == days@[i]@;
    assert(text_views(names@)[k] == days@[i]@);
}

/// The number that a day goes on with is that of the entry written next: what
/// a query then finds first has that number in its id.
pub proof fn lemma_ids_go_on(
    log: &mut AccessLog,
    day: &str,
    file: &[u8],
    repair: Result<Repair, AccessLogError>,
    then: &AccessLog,
    next: Option<u32>,
    entry: StoredView,
)
    requires
        crate::access::codec::storable(entry.fields),
        read_day(file@) matches Ok((entries, len)) && len == file@.len() && len > 0,
        (read_day(file@)->Ok_0).0.len() < u32::MAX,
        call_ensures(AccessLog::learn, (log, day, Some(file)), repair),
        *then == *final(log),
        call_ensures(AccessLog::next_sequence, (then, day), next),
    ensures
        repair == Ok::<Repair, AccessLogError>(Repair::Keep),
        next is Some,
        found_in_file(day@, file@ + framed(entry_bytes(entry)), None)[0] == (FoundEntry {
            id: day@ + "-"@ + decimal(next->0 as nat),
            entry,
        }),
{
    crate::access::codec::lemma_append_reads_back(file@, entry);
    let entries = (read_day(file@)->Ok_0).0;
    lemma_day_is_read_newest_first(day@, entries.push(entry));
}

/// A file that a write left unfinished is cut back to its whole entries, which
/// stay as they were.
pub proof fn lemma_torn_file_is_cut_back(
    log: &mut AccessLog,
    day: &str,
    file: Seq<u8>,
    entry: StoredView,
    cut: int,
    torn: &[u8],
    repair: Result<Repair, AccessLogError>,
)
    requires
        crate::access::codec::storable(entry.fields),
        read_day(file) matches Ok((entries, len)) && len == file.len() && len > 0,
        0 < cut < framed(entry_bytes(entry)).len(),
        cut <= MAX_TORN_TAIL_BYTES,
        torn@ == file + framed(entry_bytes(entry)).take(cut),
        torn@.len() <= usize::MAX,
        call_ensures(AccessLog::learn, (log, day, Some(torn)), repair),
    ensures
        repair matches Ok(Repair::Truncate(at)) && at == file.len() && torn@.take(at as int) == file,
        final(log)@.contains_key(day@),
        final(log)@[day@] == next_after((read_day(file)->Ok_0).0.len()),
{
    crate::access::codec::lemma_torn_tail(file, entry, cut);
    assert(torn@.take(file.len() as int) =~= file);
}

/// Each entry is counted once, for its device: one more entry makes one more
/// for that device and none for another.
pub proof fn lemma_entries_are_counted_once(
    entries: &Vec<StoredEntry>,
    counts: TextMap<u32>,
    more: &Vec<StoredEntry>,
    after: TextMap<u32>,
    entry: StoredEntry,
    device: Seq<char>,
)
    requires
        more@ == entries@.push(entry),
        call_ensures(device_counts, (entries,), counts),
        call_ensures(device_counts, (more,), after),
    ensures
        after@.contains_key(entry@.fields.device),
        after@[entry@.fields.device] == (if counts@.contains_key(entry@.fields.device) {
            counts@[entry@.fields.device] as int
        } else {
            0
        }) + 1,
        device != entry@.fields.device ==> (after@.contains_key(device) <==> counts@.contains_key(
            device,
        )) && (counts@.contains_key(device) ==> after@[device] == counts@[device]),
        entries@.len() == 0 ==> !counts@.contains_key(device),
{
    let a = stored_views(entries@);
    let b = stored_views(more@);
    assert(b =~= a.push(entry@));
    assert(b.drop_last() =~= a);
}

} // verus!
