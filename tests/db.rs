use repeat::db::{Clip, ClipContents, Database, Source, MAX_CLIPS};

fn clip(s: &str) -> Clip {
    Clip::new(Source::Primary, ClipContents::Text(s.to_owned()))
}

fn texts(db: &Database) -> Vec<String> {
    db.clips().iter().map(|c| c.contents.text().clone()).collect()
}

#[test]
fn creating() {
    Database::new();
}

#[test]
fn add_and_get() {
    let mut db = Database::new();
    let fst = Clip::new(Source::Primary, ClipContents::Text("fst string".to_owned()));
    let snd = Clip::new(Source::Secondary, ClipContents::Text("second string".to_owned()));

    let fst_idx = db.add_clip(fst.clone()).unwrap();
    assert_eq!(fst_idx, 0);

    let snd_idx = db.add_clip(snd.clone()).unwrap();
    assert_eq!(snd_idx, 1);

    assert_eq!(db.at(fst_idx).unwrap(), fst);
    assert_eq!(db.at(snd_idx).unwrap(), snd);
    assert!(db.at(2).is_none());
}

#[test]
fn select() {
    let mut db = Database::new();
    let fst = Clip::new(Source::Primary, ClipContents::Text("fst string".to_owned()));
    let snd = Clip::new(Source::Secondary, ClipContents::Text("second string".to_owned()));

    let fst_idx = db.add_clip(fst.clone()).unwrap();
    db.add_clip(snd.clone());

    assert!(db.select(fst_idx));

    assert_eq!(db.selection().unwrap(), fst);
}

#[test]
fn rolling() {
    let mut db = Database::new();
    for i in 1..(MAX_CLIPS * 3) {
        let clip = Clip::new(Source::Primary, ClipContents::Text(format!("clip {}", i)));
        let idx = db.add_clip(clip.clone()).unwrap();
        assert_eq!(db.at(idx).unwrap(), clip);
    }

    assert!(db.at(0).is_none());
    assert_eq!(db.clips().iter().count(), MAX_CLIPS);
}

#[test]
fn selection_stays_after_roll() {
    let mut db = Database::new();

    let fst = Clip::new(Source::Primary, ClipContents::Text("fst string".to_owned()));
    let fst_idx = db.add_clip(fst.clone()).unwrap();
    assert!(db.select(fst_idx));

    for i in 1..(MAX_CLIPS * 2) {
        let clip = Clip::new(Source::Primary, ClipContents::Text(format!("clip {}", i)));
        let idx = db.add_clip(clip.clone()).unwrap();
        assert_eq!(db.at(idx).unwrap(), clip);
    }

    assert_eq!(db.selection().unwrap(), fst);
}

#[test]
fn search() {
    let mut db = Database::new();

    let fst = Clip::new(Source::Primary, ClipContents::Text("fst string".to_owned()));
    db.add_clip(fst.clone());
    let snd = Clip::new(Source::Secondary, ClipContents::Text("second string".to_owned()));
    db.add_clip(snd.clone());

    {
        let matches = db.search("fst", 5);
        assert_eq!(matches.len(), 1);
        assert_eq!(matches.first().unwrap().clone(), fst);
    }

    {
        let matches = db.search("string", 5);
        assert_eq!(matches.len(), 2);
    }

    {
        let matches = db.search("second", 5);
        assert_eq!(matches.len(), 1);
        assert_eq!(matches.first().unwrap().clone(), snd);
    }
}

#[test]
fn replace_smaller_text() {
    let small = clip("fst");
    let bigger_after = clip("fst after");
    let bigger_before = clip("before fst");
    let bigger_around = clip("before fst after");
    let smaller = clip("s");

    assert_eq!(bigger_after.contains(&small), true);
    assert_eq!(bigger_before.contains(&small), true);
    assert_eq!(bigger_around.contains(&small), true);
    assert_eq!(smaller.contains(&small), false);
}

#[test]
fn rolling_eviction_of_two_hundred() {
    let mut db = Database::new();
    for i in 1..=200 {
        db.add_clip(clip(&format!("clip {}", i)));
    }
    assert_eq!(db.clips().len(), 100);
    assert_eq!(db.start_index(), 100);
    assert!(db.at(0).is_none());
    assert!(db.at(99).is_none());
    assert_eq!(db.at(100).unwrap(), clip("clip 101"));
    assert_eq!(db.at(199).unwrap(), clip("clip 200"));
    assert!(db.at(200).is_none());
}

#[test]
fn selection_survives_eviction() {
    let mut db = Database::new();
    let a = db.add_clip(clip("A")).unwrap();
    assert!(db.select(a));
    for i in 0..200 {
        db.add_clip(clip(&format!("entry number {}", i)));
    }
    assert_eq!(db.selection().unwrap(), clip("A"));
    assert!(!texts(&db).contains(&"A".to_owned()));
    assert!(db.at(a).is_none());
}

#[test]
fn dedup() {
    let mut db = Database::new();
    assert_eq!(db.add_clip(clip("foo")), Some(0));
    assert_eq!(db.add_clip(clip("foo")), None);
    assert_eq!(db.clips().len(), 1);
    assert_eq!(texts(&db), vec!["foo".to_owned()]);
    assert_eq!(db.add_clip(clip("bar")), Some(1));
}

#[test]
fn duplicate_of_an_older_clip_is_refused() {
    let mut db = Database::new();
    assert_eq!(db.add_clip(clip("foo")), Some(0));
    assert_eq!(db.add_clip(clip("bar")), Some(1));
    assert_eq!(db.add_clip(clip("foo")), None);
    assert_eq!(texts(&db), vec!["foo".to_owned(), "bar".to_owned()]);
    assert_eq!(db.add_clip(clip("baz")), Some(2));
}

#[test]
fn containment_collapse() {
    let mut db = Database::new();
    assert_eq!(db.add_clip(clip("fst")), Some(0));
    assert_eq!(db.add_clip(clip("fst after")), Some(0));
    assert_eq!(texts(&db), vec!["fst after".to_owned()]);
    assert_eq!(db.add_clip(clip("s")), Some(1));
    assert_eq!(texts(&db), vec!["fst after".to_owned(), "s".to_owned()]);
}

#[test]
fn duplicate_leaves_a_contained_tail() {
    let mut db = Database::new();
    assert_eq!(db.add_clip(clip("ab")), Some(0));
    assert_eq!(db.add_clip(clip("x")), Some(1));
    assert_eq!(db.add_clip(clip("a")), Some(2));
    assert_eq!(db.add_clip(clip("ab")), None);
    assert_eq!(texts(&db), vec!["ab".to_owned(), "x".to_owned(), "a".to_owned()]);
    assert_eq!(db.start_index(), 0);
}

#[test]
fn indices_increase_without_collapse() {
    let mut db = Database::new();
    let mut last = None;
    for i in 0..150 {
        let idx = db.add_clip(clip(&format!("item {} z", i))).unwrap();
        if let Some(prev) = last {
            assert!(idx > prev);
        }
        last = Some(idx);
        assert!(db.clips().len() <= MAX_CLIPS);
    }
}

#[test]
fn stable_lookup_until_evicted() {
    let mut db = Database::new();
    let first = db.add_clip(clip("first")).unwrap();
    for i in 0..99 {
        db.add_clip(clip(&format!("other {} z", i)));
        assert_eq!(db.at(first).unwrap(), clip("first"));
    }
    db.add_clip(clip("one more"));
    assert!(db.at(first).is_none());
    db.add_clip(clip("and another"));
    assert!(db.at(first).is_none());
}

#[test]
fn select_out_of_range_changes_nothing() {
    let mut db = Database::new();
    db.add_clip(clip("a"));
    assert!(!db.select(5));
    assert!(db.selection().is_none());
}

#[test]
fn select_clip_keeps_a_clip_outside_the_ring() {
    let mut db = Database::new();
    db.select_clip(clip("elsewhere"));
    assert_eq!(db.selection().unwrap(), clip("elsewhere"));
    assert!(db.clips().is_empty());
}

#[test]
fn contains_compares_bytes() {
    assert!(clip("héllo wörld").contains(&clip("wö")));
    assert!(!clip("hello").contains(&clip("hellos")));
    assert!(clip("abc").contains(&clip("")));
    assert!(clip("").contains(&clip("")));
    assert!(clip("same").contains(&clip("same")));
}

#[test]
fn equal_ignores_source() {
    let a = Clip::new(Source::Primary, ClipContents::Text("x".to_owned()));
    let b = Clip::new(Source::Clipboard, ClipContents::Text("x".to_owned()));
    assert!(a.equal(&b));
    assert!(a != b);
    assert!(!a.equal(&clip("y")));
    assert!(ClipContents::Text("q".to_owned()).equal(&ClipContents::Text("q".to_owned())));
}

#[test]
fn fuzzy_search_ordering() {
    let mut db = Database::new();
    db.add_clip(clip("fst string"));
    db.add_clip(clip("second string"));
    let both = db.search("string", 5);
    assert_eq!(both.len(), 2);
    let only_second = db.search("second", 5);
    assert_eq!(only_second, vec![clip("second string")]);
    let only_first = db.search("fst", 5);
    assert_eq!(only_first, vec![clip("fst string")]);
    assert!(db.search("string", 1).len() == 1);
    assert!(db.search("string", 0).is_empty());
    assert!(db.search("qqq", 5).is_empty());
}
