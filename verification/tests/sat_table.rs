use rstrf::sat_table::{active_entries, active_ids, reply_writes, update_targets, TableColumn};

#[test]
fn headers_in_column_order() {
    let headers: Vec<&str> = TableColumn::all().iter().map(|c| c.header()).collect();
    assert_eq!(headers, vec!["Norad ID", "Epoch", "Name", "Frequency (MHz)", "Show"]);
}

#[test]
fn active_ids_keep_list_order() {
    let entries = vec![(5, true), (25544, false), (7, true)];
    assert_eq!(active_ids(&entries), vec![5, 7]);
    assert!(active_ids(&Vec::new()).is_empty());
}

#[test]
fn update_targets_select_and_index() {
    let entries = vec![(5, true), (25544, false), (7, true), (5, false)];
    let all = update_targets(&entries, false);
    assert_eq!(all.norad_ids, vec![5, 25544, 7, 5]);
    // the last entry with an id receives the reply
    assert_eq!(all.index_of.get(&5), Some(&3));
    assert_eq!(all.index_of.get(&25544), Some(&1));
    assert_eq!(all.index_of.len(), 3);
    let active = update_targets(&entries, true);
    assert_eq!(active.norad_ids, vec![5, 7]);
    assert_eq!(active.index_of.get(&5), Some(&0));
    assert_eq!(active.index_of.get(&25544), None);
}

#[test]
fn update_targets_truncate_ids_to_u32() {
    let entries = vec![((1u64 << 32) + 9, true)];
    let t = update_targets(&entries, true);
    assert_eq!(t.norad_ids, vec![9]);
    assert_eq!(t.index_of.get(&9), Some(&0));
}

#[test]
fn replies_write_to_the_requested_indices_and_skip_the_rest() {
    let entries = vec![(25544u64, true), (43017, false), (20580, true)];
    let targets = update_targets(&entries, false);
    let replies = vec![
        (20580u32, Some("hst")),
        (99999, Some("unknown")),
        (43017, None),
        (25544, Some("iss")),
    ];
    let writes = reply_writes(&targets.index_of, replies);
    assert_eq!(writes, vec![(2, "hst"), (0, "iss")]);
}

#[test]
fn active_satellites_filters_by_active_flag() {
    let line1 = "1 00005U 58002B   00179.78495062  .00000023  00000-0  28098-4 0  4753";
    let line2 = "2 00005  34.2682 348.7242 1859667 331.7664  19.3264 10.82419157413667";
    let sat = sgp4::Elements::from_tle(Some("V1".to_string()), line1.as_bytes(), line2.as_bytes()).unwrap();
    let satellites = vec![(sat.clone(), true), (sat.clone(), false)];
    assert_eq!(active_entries(&satellites).len(), 1);
}

#[test]
fn active_entries_keep_list_order() {
    let entries = vec![("a".to_string(), true), ("b".to_string(), false), ("c".to_string(), true)];
    assert_eq!(active_entries(&entries), vec!["a".to_string(), "c".to_string()]);
    let none: Vec<(String, bool)> = vec![("x".to_string(), false)];
    assert!(active_entries(&none).is_empty());
}
