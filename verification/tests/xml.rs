use ferry_runtime::dav::http::percent_decode;
use ferry_runtime::dav::proppatch::{parted, proppatch_multistatus, read_proppatch};
use ferry_runtime::dav::xml::{multistatus, percent_encode, requested_props, Item};

#[test]
fn an_empty_body_asks_for_everything() {
    let props = requested_props(b"");
    assert!(props.displayname && props.getetag && props.creationdate);
}

#[test]
fn an_allprop_body_asks_for_everything() {
    let props = requested_props(b"<D:propfind xmlns:D=\"DAV:\"><D:allprop/></D:propfind>");
    assert!(props.resourcetype && props.getcontentlength);
}

#[test]
fn a_named_prop_list_asks_for_only_its_names() {
    let props = requested_props(
        b"<D:propfind xmlns:D=\"DAV:\"><D:prop><D:getetag/></D:prop></D:propfind>",
    );
    assert!(props.getetag);
    assert!(!props.displayname);
    assert!(!props.getcontentlength);
}

#[test]
fn the_root_hrefs_as_a_single_slash() {
    let items = [Item {
        path: "",
        name: "",
        is_dir: true,
        size: 0,
        modified_unix_secs: 0,
    }];
    let xml = multistatus(&items, &requested_props(b""));
    assert!(xml.contains("<D:href>/</D:href>"), "{xml}");
}

#[test]
fn a_folder_hrefs_with_a_trailing_slash_and_a_file_does_not() {
    let items = [
        Item {
            path: "Desktop",
            name: "Desktop",
            is_dir: true,
            size: 0,
            modified_unix_secs: 0,
        },
        Item {
            path: "Desktop/Q3 notes.md",
            name: "Q3 notes.md",
            is_dir: false,
            size: 12,
            modified_unix_secs: 0,
        },
    ];
    let xml = multistatus(&items, &requested_props(b""));
    assert!(xml.contains("<D:href>/Desktop/</D:href>"), "{xml}");
    assert!(
        xml.contains("<D:href>/Desktop/Q3%20notes.md</D:href>"),
        "{xml}"
    );
}

#[test]
fn a_name_with_xml_special_characters_is_escaped() {
    let items = [Item {
        path: "a&b",
        name: "a&b",
        is_dir: false,
        size: 0,
        modified_unix_secs: 0,
    }];
    let xml = multistatus(&items, &requested_props(b""));
    assert!(
        xml.contains("<D:displayname>a&amp;b</D:displayname>"),
        "{xml}"
    );
}

#[test]
fn a_patch_names_its_properties_and_its_time() {
    let patch = read_proppatch(
        b"<?xml version=\"1.0\"?><D:propertyupdate xmlns:D=\"DAV:\"><D:set><D:prop>\
          <Z:Win32FileAttributes>20</Z:Win32FileAttributes>\
          <Z:Win32LastModifiedTime> Thu, 01 Jan 1970 00:00:00 GMT </Z:Win32LastModifiedTime>\
          </D:prop></D:set></D:propertyupdate>",
    );
    assert_eq!(patch.names, vec!["Win32FileAttributes", "Win32LastModifiedTime"]);
    assert_eq!(
        patch.mtime_text.as_deref(),
        Some("Thu, 01 Jan 1970 00:00:00 GMT")
    );
    let (accepted, refused) = parted(&patch.names, true);
    assert_eq!(accepted, vec!["Win32LastModifiedTime"]);
    assert_eq!(refused, vec!["Win32FileAttributes"]);
    let (accepted, refused) = parted(&patch.names, false);
    assert!(accepted.is_empty());
    assert_eq!(refused.len(), 2);
}

#[test]
fn a_patch_answer_says_what_was_refused() {
    let xml = proppatch_multistatus(
        "a.txt",
        false,
        &vec!["getlastmodified".to_owned()],
        &vec!["x<y".to_owned()],
    );
    assert!(xml.contains("<D:href>/a.txt</D:href>"), "{xml}");
    assert!(xml.contains("<D:getlastmodified/></D:prop><D:status>HTTP/1.1 200 OK"), "{xml}");
    assert!(xml.contains("<D:x&lt;y/></D:prop><D:status>HTTP/1.1 403 Forbidden"), "{xml}");
}

#[test]
fn a_path_that_was_spelled_in_a_url_reads_back() {
    for path in ["DCIM/a b.jpg", "caf\u{e9}/100%.txt", "a+b&c=d?#", ""] {
        assert_eq!(percent_decode(&percent_encode(path)), path);
    }
    assert_eq!(percent_encode("a b"), "a%20b");
}

#[test]
fn a_request_for_the_names_is_answered_with_every_property() {
    let body = b"<D:propfind xmlns:D=\"DAV:\"><D:propname/></D:propfind>";
    let props = requested_props(body);
    assert!(props.resourcetype && props.getcontentlength && props.getlastmodified);
    assert!(props.getetag && props.creationdate && props.displayname);
}

#[test]
fn a_body_without_a_prop_element_asks_for_everything() {
    for body in [
        &b"<D:propfind xmlns:D=\"DAV:\"/>"[..],
        b"<propfind><getetag/></propfind>",
        b"prop",
        b"not xml",
    ] {
        let props = requested_props(body);
        assert!(props.displayname && props.getetag && props.resourcetype);
    }
    for body in [&b"<propfind><prop><getetag/></prop></propfind>"[..], b"<A:prop ><A:getetag/>"] {
        let props = requested_props(body);
        assert!(props.getetag && !props.displayname);
    }
    assert!(!requested_props(b"<prop/>").getetag, "none is named");
}
