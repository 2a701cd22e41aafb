use rstrf::tle::{group_tle_lines, tle_step, TleRecord, TleState};

const L1: &str = "1 00005U 58002B   00179.78495062  .00000023  00000-0  28098-4 0  4753";
const L2: &str = "2 00005  34.2682 348.7242 1859667 331.7664  19.3264 10.82419157413667";

fn lines(ls: &[&str]) -> Vec<String> {
    ls.iter().map(|l| l.to_string()).collect()
}

#[test]
fn two_line_sets_have_no_title() {
    let r = group_tle_lines(lines(&[L1, L2, L1, L2]));
    assert_eq!(r.len(), 2);
    assert_eq!(r[0], TleRecord { title: None, line1: L1.into(), line2: L2.into() });
}

#[test]
fn three_line_sets_keep_the_title_without_zero_prefix() {
    let r = group_tle_lines(lines(&["0 VANGUARD 1", L1, L2, "ISS (ZARYA)", L1, L2]));
    assert_eq!(r.len(), 2);
    assert_eq!(r[0].title.as_deref(), Some("VANGUARD 1"));
    assert_eq!(r[1].title.as_deref(), Some("ISS (ZARYA)"));
}

#[test]
fn broken_sets_are_skipped() {
    // title followed by line 2: dropped, then a full set
    let r = group_tle_lines(lines(&["TITLE", L2, L1, L2]));
    assert_eq!(r.len(), 1);
    assert_eq!(r[0].title, None);
    // line 1 not followed by line 2: the set and that line are dropped
    let r = group_tle_lines(lines(&[L1, "junk", L1, L2]));
    assert_eq!(r.len(), 1);
    // an unfinished set at the end yields nothing
    assert!(group_tle_lines(lines(&["NAME", L1])).is_empty());
    assert!(group_tle_lines(Vec::new()).is_empty());
}

#[test]
fn step_by_step() {
    let (s, r) = tle_step(TleState::AwaitLine1OrTitle, "0 X".into());
    assert_eq!(s, TleState::AwaitLine1("X".into()));
    assert!(r.is_none());
    let (s, r) = tle_step(s, L1.into());
    assert_eq!(s, TleState::AwaitLine2(Some("X".into()), L1.into()));
    assert!(r.is_none());
    let (s, r) = tle_step(s, L2.into());
    assert_eq!(s, TleState::AwaitLine1OrTitle);
    assert_eq!(r.unwrap().title.as_deref(), Some("X"));
    // "1" without the space is a title, not a line 1
    let (s, _) = tle_step(TleState::AwaitLine1OrTitle, "1X".into());
    assert_eq!(s, TleState::AwaitLine1("1X".into()));
}

#[test]
fn written_catalog_reads_back_its_sets() {
    let sets = vec![
        TleRecord { title: Some("VANGUARD 1".into()), line1: L1.into(), line2: L2.into() },
        TleRecord { title: None, line1: L1.into(), line2: L2.into() },
        TleRecord { title: Some("0 ZERO".into()), line1: L1.into(), line2: L2.into() },
    ];
    let mut catalog = Vec::new();
    for s in &sets {
        if let Some(t) = &s.title {
            catalog.push(format!("0 {t}"));
        }
        catalog.push(s.line1.clone());
        catalog.push(s.line2.clone());
    }
    assert_eq!(group_tle_lines(catalog), sets);
}
