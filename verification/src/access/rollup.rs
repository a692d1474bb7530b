//! Grouping operations on one connection into access log entries.
//!
//! Opening a folder in Finder is several file operations in a row. Operations
//! on the same connection, verb and path become one pending entry, whose
//! counts add up. It becomes final when the connection turns to another path,
//! ends, or leaves the entry alone for [`IDLE_SECS`].

use crate::access::codec::{EntryFields, FieldsView};
use crate::seqs::{lemma_only_step, only};
use crate::text::same_text;
use crate::types::AccessVerb;
use vstd::prelude::*;

verus! {

/// How many seconds a pending entry may be left alone before it is final.
pub const IDLE_SECS: i64 = 5;

/// Two optional counts added together. A missing one counts as zero; the sum
/// is missing only where both are.
pub open spec fn sum64(a: Option<u64>, b: Option<u64>) -> Option<u64> {
    match (a, b) {
        (None, None) => None,
        (Some(v), None) => Some(v),
        (None, Some(v)) => Some(v),
        (Some(x), Some(y)) => Some(
            if x + y > u64::MAX {
                u64::MAX
            } else {
                (x + y) as u64
            },
        ),
    }
}

/// The four byte twin of [`sum64`].
pub open spec fn sum32(a: Option<u32>, b: Option<u32>) -> Option<u32> {
    match (a, b) {
        (None, None) => None,
        (Some(v), None) => Some(v),
        (None, Some(v)) => Some(v),
        (Some(x), Some(y)) => Some(
            if x + y > u32::MAX {
                u32::MAX
            } else {
                (x + y) as u32
            },
        ),
    }
}

/// Adds two optional counts.
pub fn add_option_u64(a: Option<u64>, b: Option<u64>) -> (sum: Option<u64>)
    ensures
        sum == sum64(a, b),
{
    match (a, b) {
        (None, None) => None,
        (Some(v), None) => Some(v),
        (None, Some(v)) => Some(v),
        (Some(x), Some(y)) => Some(x.saturating_add(y)),
    }
}

/// Adds two optional counts.
pub fn add_option_u32(a: Option<u32>, b: Option<u32>) -> (sum: Option<u32>)
    ensures
        sum == sum32(a, b),
{
    match (a, b) {
        (None, None) => None,
        (Some(v), None) => Some(v),
        (None, Some(v)) => Some(v),
        (Some(x), Some(y)) => Some(x.saturating_add(y)),
    }
}

/// One access log entry that is still open.
#[derive(Debug)]
pub struct Pending {
    pub connection: u64,
    pub fields: EntryFields,
    /// When the first of its operations happened, which it is filed under.
    pub first_touch: i64,
    /// When the latest of its operations happened.
    pub last_touch: i64,
}

/// What is known of one open entry.
pub struct PendingView {
    pub connection: u64,
    pub fields: FieldsView,
    pub first_touch: i64,
    pub last_touch: i64,
}

impl View for Pending {
    type V = PendingView;

    open spec fn view(&self) -> PendingView {
        PendingView {
            connection: self.connection,
            fields: self.fields@,
            first_touch: self.first_touch,
            last_touch: self.last_touch,
        }
    }
}

/// What is known of some open entries.
pub open spec fn pending_views(pending: Seq<Pending>) -> Seq<PendingView> {
    pending.map_values(|p: Pending| p@)
}

/// The open entries. Its view is those entries.
#[derive(Debug)]
pub struct RollUp {
    pending: Vec<Pending>,
    changed: bool,
}

impl View for RollUp {
    type V = Seq<PendingView>;

    closed spec fn view(&self) -> Seq<PendingView> {
        pending_views(self.pending@)
    }
}

/// Which open entries become final.
enum Which<'a> {
    /// Those of a connection on any other path.
    OtherPaths(u64, &'a str),
    /// Those left alone for long enough.
    Idle(i64),
    /// Those of a connection.
    Connection(u64),
    All,
}

/// An entry of `connection` on another path than `path`.
pub open spec fn on_other_path(connection: u64, path: Seq<char>) -> spec_fn(PendingView) -> bool {
    |p: PendingView| p.connection == connection && p.fields.path != path
}

/// An entry that has been left alone for [`IDLE_SECS`] at `now`.
pub open spec fn is_idle(now: i64) -> spec_fn(PendingView) -> bool {
    |p: PendingView| now - p.last_touch >= IDLE_SECS
}

/// An entry of `connection`.
pub open spec fn is_of(connection: u64) -> spec_fn(PendingView) -> bool {
    |p: PendingView| p.connection == connection
}

/// Any entry.
pub open spec fn is_any() -> spec_fn(PendingView) -> bool {
    |p: PendingView| true
}

/// The opposite test.
pub open spec fn not(test: spec_fn(PendingView) -> bool) -> spec_fn(PendingView) -> bool {
    |p: PendingView| !test(p)
}

impl<'a> Which<'a> {
    spec fn test(self) -> spec_fn(PendingView) -> bool {
        match self {
            Which::OtherPaths(connection, path) => on_other_path(connection, path@),
            Which::Idle(now) => is_idle(now),
            Which::Connection(connection) => is_of(connection),
            Which::All => is_any(),
        }
    }

    fn picks(&self, p: &Pending) -> (picked: bool)
        ensures
            picked == (self.test())(p@),
    {
        match self {
            Which::OtherPaths(connection, path) => p.connection == *connection && !same_text(
                p.fields.path.as_str(),
                path,
            ),
            Which::Idle(now) => (*now as i128) - (p.last_touch as i128) >= IDLE_SECS as i128,
            Which::Connection(connection) => p.connection == *connection,
            Which::All => true,
        }
    }
}

/// The place of the open entry that an operation adds to: the same
/// connection, path and verb.
pub open spec fn merges_at(
    pending: Seq<PendingView>,
    connection: u64,
    path: Seq<char>,
    verb: AccessVerb,
    at: int,
) -> bool {
    0 <= at < pending.len() && pending[at].connection == connection && pending[at].fields.path
        == path && pending[at].fields.verb == verb
}

/// The open entry after one more operation.
pub open spec fn merged(p: PendingView, fields: FieldsView, now: i64) -> PendingView {
    PendingView {
        fields: FieldsView {
            bytes: sum64(p.fields.bytes, fields.bytes),
            entries: sum32(p.fields.entries, fields.entries),
            files: sum32(p.fields.files, fields.files),
            ..p.fields
        },
        last_touch: now,
        ..p
    }
}

/// `after` is `before` with one operation of `connection` counted: added to
/// the entry it belongs to, or open as an entry of its own.
pub open spec fn counted(
    before: Seq<PendingView>,
    after: Seq<PendingView>,
    now: i64,
    connection: u64,
    fields: FieldsView,
) -> bool {
    if exists|at: int| merges_at(before, connection, fields.path, fields.verb, at) {
        exists|at: int|
            merges_at(before, connection, fields.path, fields.verb, at) && after == before.update(
                at,
                merged(before[at], fields, now),
            )
    } else {
        after == before.push(
            PendingView { connection, fields, first_touch: now, last_touch: now },
        )
    }
}

/// A connection has one path open at a time, and one entry for each verb on
/// it.
pub open spec fn one_path_each(pending: Seq<PendingView>) -> bool {
    forall|i: int, j: int|
        0 <= i < j < pending.len() && (#[trigger] pending[i]).connection == (
        #[trigger] pending[j]).connection ==> pending[i].fields.path == pending[j].fields.path
            && pending[i].fields.verb != pending[j].fields.verb
}

impl RollUp {
    /// An entry was written since this was last asked.
    pub closed spec fn has_changed(self) -> bool {
        self.changed
    }

    /// Each connection has one path open, and one entry for each verb on it.
    pub open spec fn wf(self) -> bool {
        one_path_each(self@)
    }

    /// Nothing is open.
    pub fn new() -> (rollup: RollUp)
        ensures
            rollup@.len() == 0,
            rollup.wf(),
            !rollup.has_changed(),
    {
        RollUp { pending: Vec::new(), changed: false }
    }

    /// Takes out the entries that `which` picks, in order.
    fn take_out(&mut self, which: Which<'_>) -> (taken: Vec<Pending>)
        ensures
            pending_views(taken@) == only(old(self)@, which.test()),
            final(self)@ == only(old(self)@, not(which.test())),
            final(self).has_changed() == old(self).has_changed(),
    {
        let ghost all = self@;
        let ghost test = which.test();
        let mut taken: Vec<Pending> = Vec::new();
        let mut kept: Vec<Pending> = Vec::new();
        let mut rest: Vec<Pending> = Vec::new();
        rest.append(&mut self.pending);
        assert(pending_views(rest@) =~= all);
        let ghost mut n: int = 0;
        assert(all.take(0) =~= Seq::<PendingView>::empty());
        assert(pending_views(taken@) =~= only(all.take(0), test));
        assert(pending_views(kept@) =~= only(all.take(0), not(test)));
        assert(all.skip(0) =~= all);
        while rest.len() > 0
            invariant
                0 <= n <= all.len(),
                test == which.test(),
                self.changed == old(self).changed,
                pending_views(rest@) == all.skip(n),
                pending_views(taken@) == only(all.take(n), test),
                pending_views(kept@) == only(all.take(n), not(test)),
            decreases rest@.len(),
        {
            let ghost rest_before = rest@;
            let ghost taken_before = pending_views(taken@);
            let ghost kept_before = pending_views(kept@);
            assert(pending_views(rest@).len() == rest@.len());
            assert(pending_views(rest@)[0] == rest@[0]@);
            assert(all.skip(n)[0] == all[n]);
            let p = rest.remove(0);
            proof {
                lemma_only_step(all, test, n);
                lemma_only_step(all, not(test), n);
                assert forall|k: int| 0 <= k < rest@.len() implies pending_views(rest@)[k]
                    == all.skip(n + 1)[k] by {
                    assert(pending_views(rest_before)[k + 1] == rest_before[k + 1]@);
                    assert(all.skip(n)[k + 1] == all[n + 1 + k]);
                }
                assert(pending_views(rest@) =~= all.skip(n + 1));
                n = n + 1;
            }
            let ghost v = p@;
            if which.picks(&p) {
                taken.push(p);
                assert(pending_views(taken@) =~= taken_before.push(v));
            } else {
                kept.push(p);
                assert(pending_views(kept@) =~= kept_before.push(v));
            }
        }
        assert(all.take(n) =~= all);
        self.pending = kept;
        taken
    }

    /// Counts one operation on `connection`. Every open entry of the
    /// connection on another path becomes final first, whatever its verb.
    /// Returns what became final.
    pub fn touch(&mut self, now: i64, connection: u64, fields: EntryFields) -> (finished: Vec<
        Pending,
    >)
        requires
            old(self).wf(),
        ensures
            final(self).wf(),
            final(self).has_changed() == old(self).has_changed(),
            pending_views(finished@) == only(old(self)@, on_other_path(connection, fields@.path)),
            counted(
                only(old(self)@, not(on_other_path(connection, fields@.path))),
                final(self)@,
                now,
                connection,
                fields@,
            ),
    {
        let finished = self.take_out(Which::OtherPaths(connection, fields.path.as_str()));
        let ghost left = self@;
        proof {
            lemma_still_one_path(old(self)@, not(on_other_path(connection, fields@.path)));
            assert forall|i: int| 0 <= i < left.len() && (#[trigger] left[i]).connection
                == connection implies left[i].fields.path == fields@.path by {
                crate::seqs::lemma_only(old(self)@, not(on_other_path(connection, fields@.path)));
            }
        }
        let mut i: usize = 0;
        while i < self.pending.len()
            invariant
                i <= self.pending.len(),
                self@ == left,
                one_path_each(left),
                self.changed == old(self).changed,
                forall|j: int|
                    0 <= j < left.len() && (#[trigger] left[j]).connection == connection
                        ==> left[j].fields.path == fields@.path,
                forall|j: int|
                    0 <= j < i ==> !merges_at(left, connection, fields@.path, fields@.verb, j),
                left == only(old(self)@, not(on_other_path(connection, fields@.path))),
                pending_views(finished@) == only(
                    old(self)@,
                    on_other_path(connection, fields@.path),
                ),
            decreases self.pending.len() - i,
        {
            assert(left[i as int] == self.pending@[i as int]@);
            let here = &self.pending[i];
            if here.connection == connection && here.fields.verb == fields.verb {
                assert(merges_at(left, connection, fields@.path, fields@.verb, i as int));
                let mut p = self.pending.remove(i);
                let ghost before = p@;
                p.fields.bytes = add_option_u64(p.fields.bytes, fields.bytes);
                p.fields.entries = add_option_u32(p.fields.entries, fields.entries);
                p.fields.files = add_option_u32(p.fields.files, fields.files);
                p.last_touch = now;
                let ghost after = p@;
                self.pending.insert(i, p);
                proof {
                    assert(after == merged(before, fields@, now));
                    assert(self@ =~= left.update(i as int, after));
                    assert forall|a: int, b: int|
                        0 <= a < b < self@.len() && (#[trigger] self@[a]).connection == (
                        #[trigger] self@[b]).connection implies self@[a].fields.path
                        == self@[b].fields.path && self@[a].fields.verb != self@[b].fields.verb by {
                        assert(left[a].connection == self@[a].connection);
                        assert(left[b].connection == self@[b].connection);
                    }
                }
                return finished;
            }
            i += 1;
        }
        let ghost v = PendingView {
            connection,
            fields: fields@,
            first_touch: now,
            last_touch: now,
        };
        self.pending.push(Pending { connection, fields, first_touch: now, last_touch: now });
        proof {
            assert(self@ =~= left.push(v));
            assert forall|a: int, b: int|
                0 <= a < b < self@.len() && (#[trigger] self@[a]).connection == (
                #[trigger] self@[b]).connection implies self@[a].fields.path
                == self@[b].fields.path && self@[a].fields.verb != self@[b].fields.verb by {
                assert(left[a] == self@[a]);
                if b < left.len() {
                    assert(left[b] == self@[b]);
                } else {
                    assert(!merges_at(left, connection, v.fields.path, v.fields.verb, a));
                }
            }
        }
        finished
    }

    /// Makes final every open entry that has been left alone for
    /// [`IDLE_SECS`], and returns them.
    pub fn tick(&mut self, now: i64) -> (finished: Vec<Pending>)
        requires
            old(self).wf(),
        ensures
            final(self).wf(),
            final(self).has_changed() == old(self).has_changed(),
            pending_views(finished@) == only(old(self)@, is_idle(now)),
            final(self)@ == only(old(self)@, not(is_idle(now))),
    {
        proof {
            lemma_still_one_path(self@, not(is_idle(now)));
        }
        self.take_out(Which::Idle(now))
    }

    /// Makes final every open entry of a connection that has ended, and
    /// returns them.
    pub fn connection_ended(&mut self, connection: u64) -> (finished: Vec<Pending>)
        requires
            old(self).wf(),
        ensures
            final(self).wf(),
            final(self).has_changed() == old(self).has_changed(),
            pending_views(finished@) == only(old(self)@, is_of(connection)),
            final(self)@ == only(old(self)@, not(is_of(connection))),
    {
        proof {
            lemma_still_one_path(self@, not(is_of(connection)));
        }
        self.take_out(Which::Connection(connection))
    }

    /// Makes every open entry final, and returns them.
    pub fn finalize_all(&mut self) -> (finished: Vec<Pending>)
        requires
            old(self).wf(),
        ensures
            final(self).wf(),
            final(self).has_changed() == old(self).has_changed(),
            pending_views(finished@) == old(self)@,
            final(self)@.len() == 0,
    {
        proof {
            lemma_everything(self@);
        }
        self.take_out(Which::All)
    }

    /// Counts one operation of a connection that was opened for it alone, and
    /// ends with it. Returns what became final.
    pub fn record(&mut self, now: i64, connection: u64, fields: EntryFields) -> (finished: Vec<
        Pending,
    >)
        requires
            old(self).wf(),
            is_fresh(old(self)@, connection),
        ensures
            final(self).wf(),
            final(self).has_changed() == old(self).has_changed(),
            final(self)@ == old(self)@,
            pending_views(finished@) == seq![
                PendingView {
                    connection,
                    fields: fields@,
                    first_touch: now,
                    last_touch: now,
                },
            ],
    {
        let ghost all = self@;
        let ghost v = PendingView {
            connection,
            fields: fields@,
            first_touch: now,
            last_touch: now,
        };
        let ghost path = fields@.path;
        proof {
            lemma_none(all, on_other_path(connection, path));
            lemma_none(all, is_of(connection));
            lemma_others(all, on_other_path(connection, path));
            lemma_others(all, is_of(connection));
        }
        let earlier = self.touch(now, connection, fields);
        proof {
            assert(self@ == all.push(v)) by {
                if exists|at: int| merges_at(all, connection, path, v.fields.verb, at) {
                    let at = choose|at: int| merges_at(all, connection, path, v.fields.verb, at);
                    assert(all[at].connection != connection);
                }
            }
            assert(all.push(v).drop_last() =~= all);
        }
        let finished = self.connection_ended(connection);
        assert(pending_views(finished@) =~= seq![v]);
        finished
    }

    /// An entry that became final was written.
    pub fn note_written(&mut self)
        ensures
            final(self)@ == old(self)@,
            final(self).has_changed(),
    {
        self.changed = true;
    }

    /// Whether an entry was written since the last call.
    pub fn take_changed(&mut self) -> (changed: bool)
        ensures
            changed == old(self).has_changed(),
            !final(self).has_changed(),
            final(self)@ == old(self)@,
    {
        let changed = self.changed;
        self.changed = false;
        changed
    }
}

/// No entry of the connection is open.
pub open spec fn is_fresh(pending: Seq<PendingView>, connection: u64) -> bool {
    forall|i: int| 0 <= i < pending.len() ==> (#[trigger] pending[i]).connection != connection
}

/// Where nothing passes a test, nothing is picked.
proof fn lemma_none(s: Seq<PendingView>, test: spec_fn(PendingView) -> bool)
    requires
        forall|i: int| 0 <= i < s.len() ==> !test(#[trigger] s[i]),
    ensures
        only(s, test) == Seq::<PendingView>::empty(),
    decreases s.len(),
{
    if s.len() > 0 {
        assert forall|i: int| 0 <= i < s.drop_last().len() implies !test(
            #[trigger] s.drop_last()[i],
        ) by {
            assert(s.drop_last()[i] == s[i]);
        }
        lemma_none(s.drop_last(), test);
        assert(!test(s[s.len() - 1]));
    }
}

/// Where nothing passes a test, nothing is left out.
proof fn lemma_others(s: Seq<PendingView>, test: spec_fn(PendingView) -> bool)
    requires
        forall|i: int| 0 <= i < s.len() ==> !test(#[trigger] s[i]),
    ensures
        only(s, not(test)) == s,
    decreases s.len(),
{
    if s.len() > 0 {
        assert forall|i: int| 0 <= i < s.drop_last().len() implies !test(
            #[trigger] s.drop_last()[i],
        ) by {
            assert(s.drop_last()[i] == s[i]);
        }
        lemma_others(s.drop_last(), test);
        assert(!test(s[s.len() - 1]));
        assert(s.drop_last().push(s.last()) =~= s);
    } else {
        assert(only(s, not(test)) =~= s);
    }
}

/// An entry that becomes final leaves the open ones, and no other does: what
/// is picked and what is left are, together, all there was.
pub proof fn lemma_no_entry_lost(s: Seq<PendingView>, test: spec_fn(PendingView) -> bool)
    ensures
        only(s, test).len() + only(s, not(test)).len() == s.len(),
        forall|i: int|
            0 <= i < s.len() ==> only(s, test).contains(#[trigger] s[i]) || only(
                s,
                not(test),
            ).contains(s[i]),
    decreases s.len(),
{
    crate::seqs::lemma_only(s, test);
    crate::seqs::lemma_only(s, not(test));
    if s.len() > 0 {
        lemma_no_entry_lost(s.drop_last(), test);
    }
    assert forall|i: int| 0 <= i < s.len() implies only(s, test).contains(#[trigger] s[i]) || only(
        s,
        not(test),
    ).contains(s[i]) by {
        if !test(s[i]) {
            assert(not(test)(s[i]));
        }
    }
}

proof fn lemma_everything(s: Seq<PendingView>)
    ensures
        only(s, is_any()) == s,
        only(s, not(is_any())).len() == 0,
    decreases s.len(),
{
    if s.len() > 0 {
        lemma_everything(s.drop_last());
        assert(s.drop_last().push(s.last()) =~= s);
    } else {
        assert(only(s, is_any()) =~= s);
    }
}

/// Leaving entries out keeps one path for each connection.
proof fn lemma_still_one_path(s: Seq<PendingView>, test: spec_fn(PendingView) -> bool)
    requires
        one_path_each(s),
    ensures
        one_path_each(only(s, test)),
    decreases s.len(),
{
    if s.len() > 0 {
        let rest = s.drop_last();
        assert(one_path_each(rest));
        lemma_still_one_path(rest, test);
        crate::seqs::lemma_only(rest, test);
        let kept = only(s, test);
        if test(s.last()) {
            assert forall|i: int, j: int|
                0 <= i < j < kept.len() && (#[trigger] kept[i]).connection == (
                #[trigger] kept[j]).connection implies kept[i].fields.path == kept[j].fields.path
                && kept[i].fields.verb != kept[j].fields.verb by {
                let kept_rest = only(rest, test);
                assert(kept[i] == kept_rest[i]);
                if j < kept_rest.len() {
                    assert(kept[j] == kept_rest[j]);
                } else {
                    assert(rest.contains(kept_rest[i]));
                    let k = choose|k: int| 0 <= k < rest.len() && rest[k] == kept_rest[i];
                    assert(s[k] == kept[i]);
                    assert(s[s.len() - 1] == kept[j]);
                }
            }
        }
    }
}

/// What one connection does to one file is one entry: two touches of a file
/// add up, and when the connection ends exactly that entry is finished, with
/// the time of the first touch.
pub proof fn lemma_touches_add_up(
    rollup: &mut RollUp,
    connection: u64,
    first: EntryFields,
    at: i64,
    none: Vec<Pending>,
    then: &mut RollUp,
    second: EntryFields,
    later: i64,
    nothing: Vec<Pending>,
    ending: &mut RollUp,
    finished: Vec<Pending>,
)
    requires
        old(rollup).wf(),
        is_fresh(old(rollup)@, connection),
        call_ensures(RollUp::touch, (rollup, at, connection, first), none),
        old(then)@ == final(rollup)@,
        first@.path == second@.path,
        first@.verb == second@.verb,
        call_ensures(RollUp::touch, (then, later, connection, second), nothing),
        old(ending)@ == final(then)@,
        call_ensures(RollUp::connection_ended, (ending, connection), finished),
    ensures
        none@.len() == 0,
        nothing@.len() == 0,
        finished@.len() == 1,
        ({
            let entry = finished@[0]@;
            &&& entry.connection == connection
            &&& entry.fields.path == first@.path
            &&& entry.fields.verb == first@.verb
            &&& entry.fields.device == first@.device
            &&& entry.first_touch == at
            &&& entry.last_touch == later
            &&& first@.bytes matches Some(x) ==> second@.bytes matches Some(y) ==> x + y
                <= u64::MAX ==> entry.fields.bytes == Some((x + y) as u64)
            &&& first@.entries matches Some(x) ==> second@.entries matches Some(y) ==> x + y
                <= u32::MAX ==> entry.fields.entries == Some((x + y) as u32)
            &&& first@.files matches Some(x) ==> second@.files matches Some(y) ==> x + y
                <= u32::MAX ==> entry.fields.files == Some((x + y) as u32)
        }),
        final(ending)@ == old(rollup)@,
{
    let start = old(rollup)@;
    let path = first@.path;
    let other = on_other_path(connection, path);
    lemma_none_match(start, other, connection);
    let one = PendingView { connection, fields: first@, first_touch: at, last_touch: at };
    assert(pending_views(none@).len() == none@.len());
    assert forall|k: int| !merges_at(start, connection, path, first@.verb, k) by {}
    let mid = final(rollup)@;
    assert(mid == start.push(one));
    assert(mid.drop_last() =~= start);
    assert(only(mid, other) == only(start, other));
    assert(only(mid, not(other)) =~= mid);
    assert(pending_views(nothing@).len() == nothing@.len());
    assert(merges_at(mid, connection, path, first@.verb, start.len() as int));
    let place = choose|k: int|
        merges_at(mid, connection, path, first@.verb, k) && final(then)@ == mid.update(
            k,
            merged(mid[k], second@, later),
        );
    if place < start.len() {
        assert(mid[place] == start[place]);
    }
    let sum = merged(one, second@, later);
    let end = final(then)@;
    assert(end =~= start.push(sum));
    assert(end.drop_last() =~= start);
    lemma_none_match(start, is_of(connection), connection);
    assert(pending_views(finished@) =~= seq![sum]);
    assert(pending_views(finished@)[0] == finished@[0]@);
    assert(only(end, not(is_of(connection))) == only(start, not(is_of(connection))));
}

proof fn lemma_none_match(
    s: Seq<PendingView>,
    test: spec_fn(PendingView) -> bool,
    connection: u64,
)
    requires
        is_fresh(s, connection),
        forall|p: PendingView| p.connection != connection ==> !#[trigger] test(p),
    ensures
        only(s, test).len() == 0,
        only(s, not(test)) == s,
    decreases s.len(),
{
    if s.len() > 0 {
        let front = s.drop_last();
        assert forall|i: int| 0 <= i < front.len() implies (#[trigger] front[i]).connection
            != connection by {
            assert(front[i] == s[i]);
        }
        lemma_none_match(front, test, connection);
        assert(s.last() == s[s.len() - 1]);
        assert(!test(s.last()));
        assert(not(test)(s.last()));
        assert(front.push(s.last()) =~= s);
    }
}

/// A connection that turns to another file has finished with the one before:
/// exactly its entry is handed out, and other connections keep theirs.
pub proof fn lemma_next_file_finishes_the_last(
    rollup: &mut RollUp,
    now: i64,
    connection: u64,
    fields: EntryFields,
    finished: Vec<Pending>,
    entry: PendingView,
)
    requires
        call_ensures(RollUp::touch, (rollup, now, connection, fields), finished),
        old(rollup)@.contains(entry),
    ensures
        entry.connection == connection && entry.fields.path != fields@.path ==> pending_views(
            finished@,
        ).contains(entry),
        entry.connection != connection ==> !pending_views(finished@).contains(entry)
            && final(rollup)@.contains(entry),
        entry.fields.path == fields@.path ==> !pending_views(finished@).contains(entry),
{
    let all = old(rollup)@;
    let done = pending_views(finished@);
    let test = on_other_path(connection, fields@.path);
    crate::seqs::lemma_only(all, test);
    crate::seqs::lemma_only(all, not(test));
    let i = choose|i: int| 0 <= i < all.len() && all[i] == entry;
    if done.contains(entry) {
        let k = choose|k: int| 0 <= k < done.len() && done[k] == entry;
        assert(test(done[k]));
    }
    if test(entry) {
        assert(test(all[i]));
    } else {
        assert(not(test)(all[i]));
        let left = only(all, not(test));
        assert(left.contains(entry));
        let k = choose|k: int| 0 <= k < left.len() && left[k] == entry;
        if entry.connection != connection {
            let path = fields@.path;
            let verb = fields@.verb;
            if exists|at: int| merges_at(left, connection, path, verb, at) {
                let at = choose|at: int|
                    merges_at(left, connection, path, verb, at) && final(rollup)@ == left.update(
                        at,
                        merged(left[at], fields@, now),
                    );
                assert(at != k);
                assert(final(rollup)@[k] == entry);
            } else {
                assert(final(rollup)@[k] == entry);
            }
        }
    }
}

} // verus!
