use anidex::anilist::{Media, MediaEntries, MediaList, MediaTitle};
use anidex::compare::{
    entry_outcome, filter_entries, filter_unread_manga, generate_terminal_hyperlink,
    get_mangas_from_list, mangadex_title_url, partition_bounds, EntryLookup,
};
use anidex::mangadex::{mangadex_find_id, mangadex_latest_chapter, FeedItem, SearchResult};
use anidex::numbers::{parse_unit_number, UnitNumber};

fn entry(id: u64, title: &str, progress: u16) -> MediaList {
    MediaList { progress, media: Media { id, title: MediaTitle { romaji: title.to_string() } } }
}

fn found(catalog_id: &str, unit: &str) -> EntryLookup {
    EntryLookup::Found {
        catalog_id: catalog_id.to_string(),
        latest: parse_unit_number(unit).unwrap(),
    }
}

#[test]
fn partitions_ten_entries_over_three_workers() {
    let bounds = partition_bounds(10, 3);
    assert_eq!(bounds, vec![(0, 3), (3, 6), (6, 10)]);
    let sizes: Vec<usize> = bounds.iter().map(|(s, e)| e - s).collect();
    assert_eq!(sizes, vec![3, 3, 4]);
    // Contiguous cover of 0..10, in order, no overlap.
    assert_eq!(bounds.first().unwrap().0, 0);
    assert_eq!(bounds.last().unwrap().1, 10);
    for w in bounds.windows(2) {
        assert_eq!(w[0].1, w[1].0);
    }
}

#[test]
fn clamps_workers_to_the_entry_count() {
    let bounds = partition_bounds(2, 10);
    assert_eq!(bounds.len(), 2);
    assert_eq!(bounds, vec![(0, 1), (1, 2)]);
}

#[test]
fn empty_list_gets_no_workers_and_zero_workers_get_one() {
    assert_eq!(partition_bounds(0, 4), Vec::<(usize, usize)>::new());
    assert_eq!(partition_bounds(5, 0), vec![(0, 5)]);
}

#[test]
fn unread_item_needs_match_translation_and_lower_progress() {
    let e = entry(42, "X", 5);

    // Behind: match, translation, progress below the latest unit.
    let r = entry_outcome(&e, &found("cat", "7")).unwrap();
    assert_eq!(r.id, "cat");
    assert_eq!(r.title, "X");
    assert_eq!(r.chapter, 5);
    assert_eq!(r.latest.whole, 7);

    // No catalog match.
    assert!(entry_outcome(&e, &EntryLookup::NoMatch).is_none());
    // No translation in the requested language.
    assert!(entry_outcome(&e, &EntryLookup::NoTranslation).is_none());
    // Caught up.
    assert!(entry_outcome(&entry(42, "X", 7), &found("cat", "7")).is_none());
    assert!(entry_outcome(&entry(42, "X", 8), &found("cat", "7")).is_none());
}

#[test]
fn filtering_keeps_original_entry_order() {
    let entries = vec![entry(1, "A", 0), entry(2, "B", 9), entry(3, "C", 0)];
    let lookups = vec![found("a", "3"), found("b", "9"), found("c", "2.5")];
    let r = filter_entries(&entries, &lookups);
    let ids: Vec<&str> = r.iter().map(|u| u.id.as_str()).collect();
    assert_eq!(ids, vec!["a", "c"]);
}

#[test]
fn partitioned_reconciliation_equals_sequential() {
    let entries: Vec<MediaList> =
        (0..10).map(|i| entry(i, &format!("T{}", i), (i % 4) as u16)).collect();
    let lookups: Vec<EntryLookup> = (0..10).map(|i| found(&format!("c{}", i), "2")).collect();
    let sequential = filter_entries(&entries, &lookups);
    for workers in [1, 2, 3, 7, 10, 50] {
        let joined = get_mangas_from_list(&entries, &lookups, workers);
        let a: Vec<(&str, u16)> = joined.iter().map(|u| (u.id.as_str(), u.chapter)).collect();
        let b: Vec<(&str, u16)> = sequential.iter().map(|u| (u.id.as_str(), u.chapter)).collect();
        assert_eq!(a, b);
    }
}

#[test]
fn reading_list_entry_behind_by_two_chapters() {
    // One entry {externalId: 42, title: "X", progress: 5}; the catalog
    // search for "X" returns one result with cross-reference 42; its
    // feed returns chapter "7".
    let e = entry(42, "X", 5);
    let search = vec![SearchResult { id: "cat".to_string(), anilist_link: Some("42".to_string()) }];
    let catalog_id = mangadex_find_id(&search, e.media.id).unwrap().unwrap();
    let feed = vec![FeedItem { chapter: Some("7".to_string()) }];
    let latest = mangadex_latest_chapter(&feed).unwrap().unwrap();
    let lookup = EntryLookup::Found { catalog_id, latest };

    let lists = vec![MediaEntries { entries: vec![e] }];
    let lookups = vec![vec![lookup]];
    let r = filter_unread_manga(&lists, &lookups, 1);
    assert_eq!(r.len(), 1);
    assert_eq!(r[0].id, "cat");
    assert_eq!(r[0].title, "X");
    assert_eq!(r[0].chapter, 5);
    assert_eq!(r[0].latest.whole, 7);
    assert_eq!(r[0].latest.frac, Vec::<u8>::new());
}

#[test]
fn empty_feed_yields_no_item_and_no_error() {
    // Same entry, but the feed has nothing in the requested language.
    let e = entry(42, "X", 5);
    let search = vec![SearchResult { id: "cat".to_string(), anilist_link: Some("42".to_string()) }];
    let catalog_id = mangadex_find_id(&search, e.media.id).unwrap();
    assert_eq!(catalog_id, Some("cat".to_string()));
    let latest = mangadex_latest_chapter(&Vec::new()).unwrap();
    assert!(latest.is_none());

    let lists = vec![MediaEntries { entries: vec![e] }];
    let lookups = vec![vec![EntryLookup::NoTranslation]];
    let r = filter_unread_manga(&lists, &lookups, 1);
    assert!(r.is_empty());
}

#[test]
fn title_url_and_hyperlink_are_written_exactly() {
    assert_eq!(mangadex_title_url("abc"), "https://mangadex.org/title/abc");
    assert_eq!(
        generate_terminal_hyperlink("https://a/b".to_string(), "T"),
        "\x1b]8;;https://a/b\x07T\x1b]8;;\x07"
    );
    // Escape and newline characters in the link are escaped.
    assert_eq!(
        generate_terminal_hyperlink("a\x1bb\nc".to_string(), "T"),
        "\x1b]8;;a\\eb\\nc\x07T\x1b]8;;\x07"
    );
}

#[test]
fn report_line_shows_link_progress_and_latest() {
    let u = anidex::compare::UnreadManga {
        id: "cat".to_string(),
        title: "X".to_string(),
        chapter: 5,
        latest: UnitNumber { whole: 7, frac: Vec::new() },
    };
    assert_eq!(
        u.to_display_string(),
        "\x1b]8;;https://mangadex.org/title/cat\x07X\x1b]8;;\x07: current: 5, latest: 7"
    );
}
