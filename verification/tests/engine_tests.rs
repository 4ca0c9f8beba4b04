use playlist_engine::chunks::{partition_chunks, plan_writes, write_step, WriteCall};
use playlist_engine::duplicates::find_duplicates;
use playlist_engine::errors::EngineError;
use playlist_engine::features::FeatureMap;
use playlist_engine::model::{playable_ids, track_ids, PlayableKind, PlaylistEntry};
use playlist_engine::order::{order_by_feature, order_random};
use playlist_engine::parse::Direction;
use playlist_engine::reader::collect_entries;

fn track(id: &str, name: &str) -> PlaylistEntry {
    PlaylistEntry::Track {
        id: id.to_string(),
        name: name.to_string(),
        artist: "artist".to_string(),
        album: "album".to_string(),
        duration_secs: 180,
    }
}

fn episode(id: &str, name: &str) -> PlaylistEntry {
    PlaylistEntry::Episode {
        id: id.to_string(),
        name: name.to_string(),
        publisher: "publisher".to_string(),
        show: "show".to_string(),
        duration_secs: 3600,
    }
}

fn ids(v: &[&str]) -> Vec<String> {
    v.iter().map(|s| s.to_string()).collect()
}

#[test]
fn duplicates_scenario() {
    let entries = vec![
        track("A", "first a"),
        track("B", "first b"),
        track("A", "second a"),
        track("C", "first c"),
        track("B", "second b"),
        track("B", "third b"),
    ];
    let report = find_duplicates(&entries);
    let names: Vec<&str> = report.iter().map(|r| r.name.as_str()).collect();
    assert_eq!(names, vec!["second a", "second b", "third b"]);
    for r in &report {
        assert_eq!(r.kind, PlayableKind::Track);
    }
}

#[test]
fn duplicates_none() {
    let entries = vec![track("A", "a"), track("B", "b"), track("C", "c")];
    assert_eq!(find_duplicates(&entries).len(), 0);
}

#[test]
fn duplicates_empty() {
    let entries: Vec<PlaylistEntry> = Vec::new();
    assert_eq!(find_duplicates(&entries).len(), 0);
}

#[test]
fn duplicates_report_episode_kind() {
    let entries = vec![episode("E", "pilot"), episode("E", "pilot again")];
    let report = find_duplicates(&entries);
    assert_eq!(report.len(), 1);
    assert_eq!(report[0].name, "pilot again");
    assert_eq!(report[0].kind, PlayableKind::Episode);
}

fn feature_map(pairs: &[(&str, u32)]) -> FeatureMap {
    let mut m = FeatureMap::new();
    for (id, key) in pairs {
        m.insert(id.to_string(), *key);
    }
    m
}

#[test]
fn feature_sort_ascending() {
    let entries = vec![track("t1", "1"), track("t2", "2"), track("t3", "3"), track("t4", "4")];
    let m = feature_map(&[("t1", 30), ("t2", 10), ("t3", 20), ("t4", 10)]);
    let out = order_by_feature(&entries, &m, Direction::Ascending).unwrap();
    assert_eq!(out, ids(&["t2", "t4", "t3", "t1"]));
}

#[test]
fn feature_sort_descending() {
    let entries = vec![track("t1", "1"), track("t2", "2"), track("t3", "3"), track("t4", "4")];
    let m = feature_map(&[("t1", 30), ("t2", 10), ("t3", 20), ("t4", 10)]);
    let out = order_by_feature(&entries, &m, Direction::Descending).unwrap();
    // Equal keys keep their source order under either direction.
    assert_eq!(out, ids(&["t1", "t3", "t2", "t4"]));
}

#[test]
fn feature_sort_stability_all_equal() {
    let entries = vec![track("a", "1"), track("b", "2"), track("c", "3")];
    let m = feature_map(&[("a", 5), ("b", 5), ("c", 5)]);
    let out = order_by_feature(&entries, &m, Direction::Ascending).unwrap();
    assert_eq!(out, ids(&["a", "b", "c"]));
    let out = order_by_feature(&entries, &m, Direction::Descending).unwrap();
    assert_eq!(out, ids(&["a", "b", "c"]));
}

#[test]
fn feature_sort_missing_feature_fails() {
    let entries = vec![track("t1", "1"), track("t2", "2")];
    let m = feature_map(&[("t1", 30)]);
    let r = order_by_feature(&entries, &m, Direction::Ascending);
    assert_eq!(r.unwrap_err(), EngineError::MissingFeature);
}

#[test]
fn feature_sort_refuses_episode() {
    let entries = vec![track("t1", "1"), episode("e1", "pilot")];
    // Even with every feature absent, the non-track entry is reported first.
    let m = FeatureMap::new();
    let r = order_by_feature(&entries, &m, Direction::Ascending);
    assert_eq!(r.unwrap_err(), EngineError::UnsupportedItemType);
}

#[test]
fn feature_sort_empty() {
    let entries: Vec<PlaylistEntry> = Vec::new();
    let m = FeatureMap::new();
    let out = order_by_feature(&entries, &m, Direction::Ascending).unwrap();
    assert_eq!(out.len(), 0);
}

#[test]
fn random_order_is_permutation() {
    let input = ids(&["a", "b", "c", "d", "e", "f", "g", "h", "b", "b"]);
    let out = order_random(input.clone());
    assert_eq!(out.len(), input.len());
    let mut sorted_in = input.clone();
    sorted_in.sort();
    let mut sorted_out = out.clone();
    sorted_out.sort();
    assert_eq!(sorted_in, sorted_out);
}

#[test]
fn random_order_empty_and_single() {
    assert_eq!(order_random(Vec::new()).len(), 0);
    assert_eq!(order_random(ids(&["x"])), ids(&["x"]));
}

fn numbered_ids(n: usize) -> Vec<String> {
    (0..n).map(|i| format!("id{:04}", i)).collect()
}

#[test]
fn plan_small_is_one_replace() {
    let sel = numbered_ids(5);
    let plan = plan_writes(&sel);
    assert_eq!(plan.len(), 1);
    assert!(plan[0].is_replace());
    assert_eq!(plan[0].ids(), &sel);
}

#[test]
fn plan_exactly_hundred_is_one_replace() {
    let sel = numbered_ids(100);
    let plan = plan_writes(&sel);
    assert_eq!(plan.len(), 1);
    assert!(plan[0].is_replace());
    assert_eq!(plan[0].ids().len(), 100);
}

#[test]
fn plan_hundred_and_one() {
    let sel = numbered_ids(101);
    let plan = plan_writes(&sel);
    assert_eq!(plan.len(), 2);
    assert!(plan[0].is_replace());
    assert!(!plan[1].is_replace());
    assert_eq!(plan[0].ids().len(), 100);
    assert_eq!(plan[1].ids().len(), 1);
}

#[test]
fn plan_two_hundred_fifty() {
    let sel = numbered_ids(250);
    let plan = plan_writes(&sel);
    assert_eq!(plan.len(), 3);
    assert!(plan[0].is_replace());
    assert!(!plan[1].is_replace());
    assert!(!plan[2].is_replace());
    assert_eq!(plan[0].ids().len(), 100);
    assert_eq!(plan[1].ids().len(), 100);
    assert_eq!(plan[2].ids().len(), 50);
    let mut joined: Vec<String> = Vec::new();
    for call in &plan {
        joined.extend(call.ids().iter().cloned());
    }
    assert_eq!(joined, sel);
}

#[test]
fn plan_empty_selection_still_replaces() {
    let sel: Vec<String> = Vec::new();
    let plan = plan_writes(&sel);
    assert_eq!(plan.len(), 1);
    assert!(plan[0].is_replace());
    assert_eq!(plan[0].ids().len(), 0);
}

#[test]
fn write_call_kinds_carry_ids() {
    let call = WriteCall::Replace { ids: ids(&["x", "y"]) };
    assert!(call.is_replace());
    assert_eq!(call.ids(), &ids(&["x", "y"]));
    let call = WriteCall::Append { ids: ids(&["z"]) };
    assert!(!call.is_replace());
    assert_eq!(call.ids(), &ids(&["z"]));
}

#[test]
fn write_step_continues_on_success() {
    assert_eq!(write_step(0, true), Ok(()));
    assert_eq!(write_step(7, true), Ok(()));
}

#[test]
fn write_step_stops_with_failed_chunk_index() {
    assert_eq!(write_step(2, false), Err(EngineError::Write { chunk_index: 2 }));
    assert_eq!(write_step(0, false), Err(EngineError::Write { chunk_index: 0 }));
}

#[test]
fn partition_concat_reproduces_input() {
    let sel = numbered_ids(250);
    let chunks = partition_chunks(&sel);
    assert_eq!(chunks.len(), 3);
    for c in &chunks {
        assert!(c.len() <= 100);
        assert!(!c.is_empty());
    }
    let joined: Vec<String> = chunks.concat();
    assert_eq!(joined, sel);
}

#[test]
fn partition_empty_has_no_chunks() {
    let sel: Vec<String> = Vec::new();
    assert_eq!(partition_chunks(&sel).len(), 0);
}

#[test]
fn feature_map_insert_get_overwrite() {
    let mut m = FeatureMap::new();
    assert_eq!(m.get(&"a".to_string()), None);
    m.insert("a".to_string(), 7);
    m.insert("b".to_string(), 9);
    assert_eq!(m.get(&"a".to_string()), Some(7));
    assert_eq!(m.get(&"b".to_string()), Some(9));
    m.insert("a".to_string(), 11);
    assert_eq!(m.get(&"a".to_string()), Some(11));
}

#[test]
fn feature_map_from_pairs() {
    let m = FeatureMap::from_pairs(vec![
        ("a".to_string(), 1),
        ("b".to_string(), 2),
        ("a".to_string(), 3),
    ]);
    assert_eq!(m.get(&"a".to_string()), Some(3));
    assert_eq!(m.get(&"b".to_string()), Some(2));
}

#[test]
fn collect_entries_all_present() {
    let items = vec![Some(track("a", "1")), Some(episode("b", "2"))];
    let es = collect_entries(items).unwrap();
    assert_eq!(es.len(), 2);
    assert_eq!(es[0].id().as_str(), "a");
    assert_eq!(es[1].id().as_str(), "b");
}

#[test]
fn collect_entries_empty_slot_fails() {
    let items = vec![Some(track("a", "1")), None, Some(track("c", "3"))];
    assert_eq!(collect_entries(items).unwrap_err(), EngineError::Fetch);
}

#[test]
fn id_extraction() {
    let entries = vec![track("t1", "1"), episode("e1", "2"), track("t2", "3")];
    assert_eq!(playable_ids(&entries), ids(&["t1", "e1", "t2"]));
    assert_eq!(track_ids(&entries), ids(&["t1", "t2"]));
}

#[test]
fn entry_accessors() {
    let t = track("t1", "song");
    assert_eq!(t.id().as_str(), "t1");
    assert_eq!(t.name().as_str(), "song");
    assert_eq!(t.kind(), PlayableKind::Track);
    assert!(t.is_track());
    let e = episode("e1", "pilot");
    assert_eq!(e.kind(), PlayableKind::Episode);
    assert!(!e.is_track());
}
