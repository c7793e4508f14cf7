use repeat::atoms::AtomCache;
use repeat::clipboard::{
    choose_target, parse_targets, Action, Clipboard, ConvertRequest, Event, KnownAtoms,
    PropertyStep, SelectionNotify, SelectionRequest, SetOwner, TargetChoice, XA_ATOM,
};
use repeat::db::{Clip, ClipContents, Database, Source};

const GETTER: u32 = 0x200001;
const SETTER: u32 = 0x200002;

fn known() -> KnownAtoms {
    KnownAtoms { primary: 1, secondary: 2, clipboard: 300, targets: 301, utf8_string: 302 }
}

fn engine() -> Clipboard {
    Clipboard::new(GETTER, SETTER, known())
}

fn clip(s: &str) -> Clip {
    Clip::new(Source::Primary, ClipContents::Text(s.to_owned()))
}

fn request(target: u32) -> SelectionRequest {
    SelectionRequest { requestor: 0x400000, selection: 1, target, property: 555 }
}

fn notify_for(req: &SelectionRequest) -> SelectionNotify {
    SelectionNotify {
        time: 0,
        requestor: req.requestor,
        selection: req.selection,
        target: req.target,
        property: req.property,
    }
}

#[test]
fn targets_reply_lists_targets_and_utf8_string() {
    let c = engine();
    let req = request(301);
    let resp = c.serve_request(&req, &Some(clip("hello")));
    let change = resp.change.unwrap();
    assert_eq!(change.window, req.requestor);
    assert_eq!(change.property, 555);
    assert_eq!(change.type_, XA_ATOM);
    assert_eq!(change.format, 32);
    assert_eq!(change.data, vec![45, 1, 0, 0, 46, 1, 0, 0]);
    assert_eq!(resp.notify, notify_for(&req));
}

#[test]
fn targets_reply_is_empty_without_selection() {
    let c = engine();
    let req = request(301);
    let resp = c.serve_request(&req, &None);
    let change = resp.change.unwrap();
    assert_eq!(change.type_, XA_ATOM);
    assert_eq!(change.format, 32);
    assert!(change.data.is_empty());
    assert_eq!(change.property, 555);
    assert_eq!(resp.notify, notify_for(&req));
}

#[test]
fn utf8_reply_holds_the_selection_bytes() {
    let c = engine();
    let req = request(302);
    let resp = c.serve_request(&req, &Some(clip("héllo")));
    let change = resp.change.unwrap();
    assert_eq!(change.type_, 302);
    assert_eq!(change.format, 8);
    assert_eq!(change.data, "héllo".as_bytes().to_vec());
    assert_eq!(resp.notify, notify_for(&req));

    let none = c.serve_request(&req, &None).change.unwrap();
    assert_eq!(none.data, b"n/a".to_vec());
}

#[test]
fn unsupported_target_still_notifies() {
    let c = engine();
    let req = request(999);
    let resp = c.serve_request(&req, &Some(clip("x")));
    assert!(resp.change.is_none());
    assert_eq!(resp.notify, notify_for(&req));
}

#[test]
fn every_request_event_is_served_once() {
    let c = engine();
    for target in [301u32, 302, 7] {
        let req = request(target);
        match c.handle_event(&Event::SelectionRequest(req), &Some(clip("x"))) {
            Action::Serve(resp) => assert_eq!(resp.notify, notify_for(&req)),
            other => panic!("unexpected action {:?}", other),
        }
    }
}

#[test]
fn owner_change_starts_capture_unless_own_or_paused() {
    let mut c = engine();
    let ev = Event::OwnerChanged { selection: 1, owner: 0x500000 };
    assert!(matches!(c.handle_event(&ev, &None), Action::QueryTargets { selection: 1 }));
    let own = Event::OwnerChanged { selection: 1, owner: SETTER };
    assert!(matches!(c.handle_event(&own, &None), Action::Nothing));
    c.pause();
    assert!(c.is_paused());
    assert!(matches!(c.handle_event(&ev, &None), Action::Nothing));
    c.start();
    assert!(matches!(c.handle_event(&ev, &None), Action::QueryTargets { selection: 1 }));
}

#[test]
fn take_ownership_claims_primary_for_setter() {
    assert_eq!(engine().take_ownership(), SetOwner { owner: SETTER, selection: 1, time: 0 });
}

#[test]
fn parse_targets_skips_zero_and_unaligned() {
    let bytes = vec![1, 0, 0, 0, 0, 0, 0, 0, 2, 1, 0, 0, 0xff, 0xff, 0xff, 0xff, 9, 9];
    assert_eq!(parse_targets(&bytes), vec![1, 258, u32::MAX]);
    assert!(parse_targets(&[]).is_empty());
    assert!(parse_targets(&[5, 0, 0]).is_empty());
}

#[test]
fn choose_target_prefers_utf8() {
    let names = |v: &[&str]| v.iter().map(|s| s.to_string()).collect::<Vec<String>>();
    assert_eq!(
        choose_target(&names(&["TARGETS", "image/png", "UTF8_STRING"]), 1),
        TargetChoice::FetchText { selection: 1 }
    );
    assert_eq!(
        choose_target(&names(&["TARGETS", "text/html", "image/png", "image/jpeg"]), 1),
        TargetChoice::Image { selection: 1, index: 2 }
    );
    assert_eq!(choose_target(&names(&["TARGETS", "STRING", "image"]), 1), TargetChoice::Ignore);
    assert_eq!(choose_target(&names(&[]), 1), TargetChoice::Ignore);
}

#[test]
fn capture_and_serve() {
    let mut c = engine();
    let mut atoms = AtomCache::new();
    let mut db = Database::new();

    // the owner of PRIMARY changes
    assert!(matches!(
        c.handle_event(&Event::OwnerChanged { selection: 1, owner: 0x500000 }, &None),
        Action::QueryTargets { selection: 1 }
    ));
    let p = match c.next_free_property(&atoms) {
        PropertyStep::Intern(name) => {
            assert_eq!(name, "REPEAT_0");
            atoms.insert(&name, 600);
            match c.next_free_property(&atoms) {
                PropertyStep::Free(a) => a,
                other => panic!("unexpected {:?}", other),
            }
        }
        other => panic!("unexpected {:?}", other),
    };
    assert_eq!(p, 600);
    let conv = c.begin_targets(1, p);
    assert_eq!(
        conv,
        ConvertRequest { requestor: GETTER, selection: 1, target: 301, property: 600, time: 0 }
    );
    assert!(!c.is_free_property(600));

    // the TARGETS reply arrives
    let notify = Event::SelectionNotify { requestor: GETTER, selection: 1, target: 301, property: 600 };
    assert!(matches!(c.handle_event(&notify, &None), Action::ReadTargets { window: GETTER, property: 600 }));
    let atoms_listed = parse_targets(&[45, 1, 0, 0, 46, 1, 0, 0]);
    let names: Vec<String> = atoms_listed
        .iter()
        .map(|a| if *a == 301 { "TARGETS".to_owned() } else { "UTF8_STRING".to_owned() })
        .collect();
    assert_eq!(c.finish_targets(600, &names), TargetChoice::FetchText { selection: 1 });
    assert!(c.is_free_property(600));

    // the text conversion reuses the freed property
    let p2 = match c.next_free_property(&atoms) {
        PropertyStep::Free(a) => a,
        other => panic!("unexpected {:?}", other),
    };
    assert_eq!(p2, 600);
    let conv2 = c.begin_text(1, p2);
    assert_eq!(conv2.target, 302);
    let notify2 = Event::SelectionNotify { requestor: GETTER, selection: 1, target: 302, property: 600 };
    assert!(matches!(c.handle_event(&notify2, &None), Action::ReadText { window: GETTER, property: 600 }));
    assert_eq!(c.finish_text(600, b"hello", &mut db), Some(0));
    assert_eq!(db.at(0).unwrap(), clip("hello"));

    // later the clip is selected and served
    assert!(db.select(0));
    let resp = c.serve_request(&request(301), &db.selection());
    assert_eq!(resp.change.unwrap().data, vec![45, 1, 0, 0, 46, 1, 0, 0]);
}

#[test]
fn finish_text_records_the_source_and_decodes_lossily() {
    let mut c = engine();
    let mut db = Database::new();
    c.begin_text(300, 700);
    assert_eq!(c.finish_text(700, &[b'o', b'k', 0xff], &mut db), Some(0));
    let got = db.at(0).unwrap();
    assert_eq!(got.source, Source::Clipboard);
    assert_eq!(got.contents.text(), "ok\u{FFFD}");
    // a reply on a property with no conversion adds nothing
    assert_eq!(c.finish_text(700, b"again", &mut db), None);
    assert_eq!(db.clips().len(), 1);
}

#[test]
fn unknown_property_notify_is_unclaimed() {
    let c = engine();
    let ev = Event::SelectionNotify { requestor: GETTER, selection: 1, target: 301, property: 42 };
    assert!(matches!(c.handle_event(&ev, &None), Action::Unclaimed { property: 42 }));
    assert!(matches!(c.handle_event(&Event::Other, &None), Action::Nothing));
}

#[test]
fn free_property_skips_those_in_flight() {
    let mut c = engine();
    let mut atoms = AtomCache::new();
    atoms.insert("REPEAT_0", 600);
    atoms.insert("REPEAT_1", 601);
    c.begin_targets(1, 600);
    assert!(matches!(c.next_free_property(&atoms), PropertyStep::Free(601)));
    c.begin_targets(2, 601);
    match c.next_free_property(&atoms) {
        PropertyStep::Intern(name) => assert_eq!(name, "REPEAT_2"),
        other => panic!("unexpected {:?}", other),
    }
    assert_eq!(c.finish_targets(600, &Vec::new()), TargetChoice::Ignore);
    assert!(matches!(c.next_free_property(&atoms), PropertyStep::Free(600)));
}

#[test]
fn atom_cache_lookups() {
    let mut atoms = AtomCache::new();
    assert_eq!(atoms.get("PRIMARY"), None);
    atoms.insert("PRIMARY", 1);
    atoms.insert("ALIAS", 1);
    atoms.insert("TARGETS", 301);
    assert_eq!(atoms.get("PRIMARY"), Some(1));
    assert_eq!(atoms.name_of(1), Some("PRIMARY".to_owned()));
    assert_eq!(atoms.name_of(301), Some("TARGETS".to_owned()));
    assert_eq!(atoms.name_of(77), None);
    atoms.insert("TARGETS", 302);
    assert_eq!(atoms.get("TARGETS"), Some(302));
    assert_eq!(atoms.len(), 3);
}
