use onion_crawler_core::results::{merge_sources, OnionEntry, OnionResults, OnionSource};

fn source(url: &str, date: &str, archive: &str) -> OnionSource {
    OnionSource {
        url: url.to_string(),
        date: date.to_string(),
        archive: archive.to_string(),
    }
}

fn entry(onion: &str, sources: Vec<OnionSource>) -> OnionEntry {
    OnionEntry { onion: onion.to_string(), sources }
}

/// All addresses with the URLs, dates and archives of their sources.
fn contents(results: &OnionResults) -> Vec<(String, Vec<(String, String, String)>)> {
    let mut all = Vec::new();
    let mut i = 0;
    while let Some((onion, sources)) = results.entry_at(i) {
        let sources = sources
            .iter()
            .map(|s| (s.url.clone(), s.date.clone(), s.archive.clone()))
            .collect();
        all.push((onion.clone(), sources));
        i += 1;
    }
    all
}

#[test]
fn sources_are_told_apart_by_page_and_archive() {
    let mut sources = vec![source("u", "1", "a")];
    merge_sources(
        &mut sources,
        vec![
            source("u", "2", "a"),
            source("u", "2", "b"),
            source("v", "2", "a"),
            source("v", "3", "a"),
        ],
    );
    let held: Vec<(&str, &str, &str)> = sources
        .iter()
        .map(|s| (s.url.as_str(), s.date.as_str(), s.archive.as_str()))
        .collect();
    assert_eq!(held, vec![("u", "1", "a"), ("u", "2", "b"), ("v", "2", "a")]);
}

#[test]
fn merging_counts_new_addresses() {
    let mut results = OnionResults::new();
    assert_eq!(results.len(), 0);
    let added = results.merge_archive(vec![
        entry("x.onion", vec![source("u", "1", "a")]),
        entry("y.onion", vec![]),
    ]);
    assert_eq!(added, 2);
    let added = results.merge_archive(vec![
        entry("x.onion", vec![source("u", "9", "b")]),
        entry("z.onion", vec![source("w", "1", "b")]),
    ]);
    assert_eq!(added, 1);
    assert_eq!(results.len(), 3);
    assert_eq!(results.merge_archive(Vec::new()), 0);
}

#[test]
fn merging_an_archive_again_changes_nothing() {
    let found = vec![
        entry("x.onion", vec![source("u", "1", "a"), source("v", "1", "a")]),
        entry("y.onion", vec![source("u", "1", "a")]),
    ];
    let mut results = OnionResults::new();
    results.merge_archive(found.clone());
    let before = contents(&results);
    assert_eq!(results.merge_archive(found), 0);
    assert_eq!(contents(&results), before);
}

#[test]
fn order_within_an_archive_does_not_matter() {
    let a = entry("x.onion", vec![source("u", "1", "a")]);
    let b = entry("y.onion", vec![source("v", "1", "a")]);
    let mut one = OnionResults::new();
    one.merge_archive(vec![a.clone(), b.clone()]);
    let mut two = OnionResults::new();
    two.merge_archive(vec![b, a]);
    let mut first = contents(&one);
    let mut second = contents(&two);
    first.sort();
    second.sort();
    assert_eq!(first, second);
}

#[test]
fn stored_entries_are_taken_as_they_are() {
    let mut results = OnionResults::new();
    results.restore_entry(entry("x.onion", vec![source("u", "1", "a"), source("u", "2", "a")]));
    assert_eq!(contents(&results)[0].1.len(), 2);
    results.restore_entry(entry("x.onion", vec![source("w", "1", "a")]));
    assert_eq!(results.len(), 1);
    assert_eq!(
        contents(&results)[0].1,
        vec![("w".to_string(), "1".to_string(), "a".to_string())]
    );
}

#[test]
fn merged_entries_keep_earlier_sources() {
    let mut results = OnionResults::new();
    results.restore_entry(entry("x.onion", vec![source("u", "1", "a")]));
    results.merge_entry(entry("x.onion", vec![source("u", "2", "a"), source("v", "2", "a")]));
    results.merge_entry(entry("y.onion", vec![source("u", "1", "a"), source("u", "2", "a")]));
    let all = contents(&results);
    assert_eq!(all.len(), 2);
    assert_eq!(all[0].1.len(), 2);
    assert_eq!(all[0].1[0].1, "1");
    assert_eq!(all[1].1.len(), 1);
}

#[test]
fn entries_are_listed_in_order_of_appearance() {
    let mut results = OnionResults::new();
    for name in ["c", "a", "b", "a"] {
        results.merge_entry(entry(name, vec![]));
    }
    let order: Vec<String> = contents(&results).into_iter().map(|(onion, _)| onion).collect();
    assert_eq!(order, vec!["c", "a", "b"]);
    assert!(results.entry_at(3).is_none());
}
