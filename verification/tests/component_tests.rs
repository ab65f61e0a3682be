use static_rd::histogram::Hist;
use static_rd::log::ListSerializable;
use static_rd::oracle::{LRU, LRUStack};
use static_rd::selector::{parse_selector, Selector};

#[test]
fn oracle_reports_stack_distances() {
    let mut sim = LRUStack::new();
    assert_eq!(sim.rec_access(1), None);
    assert_eq!(sim.rec_access(2), None);
    assert_eq!(sim.rec_access(1), Some(2));
    assert_eq!(sim.rec_access(3), None);
    assert_eq!(sim.rec_access(2), Some(3));
    assert_eq!(sim.rec_access(2), Some(1));
}

#[test]
fn histogram_orders_buckets() {
    let mut hist = Hist::new();
    hist.add_dist(Some(3));
    hist.add_dist(None);
    hist.add_dist(Some(1));
    hist.add_dist(Some(3));
    assert_eq!(
        hist.to_vec(),
        vec![(Some(1), 1), (Some(3), 2), (None, 1)]
    );
}

#[test]
fn log_keeps_access_order() {
    let mut log: ListSerializable<usize> = ListSerializable::new();
    log.add(7);
    log.add(3);
    log.add(7);
    assert_eq!(log.len(), 3);
    assert_eq!(*log.get(0), 7);
    assert_eq!(*log.get(1), 3);
    assert_eq!(*log.get(2), 7);
}

#[test]
fn selector_names_parse() {
    assert!(matches!(parse_selector("Olken"), Selector::Olken));
    assert!(matches!(parse_selector("Stack"), Selector::Stack));
    assert!(matches!(parse_selector("Vec"), Selector::VecScan));
    match parse_selector("Scale,0.5,64") {
        Selector::Scale(params) => assert_eq!(params, "0.5,64"),
        _ => panic!("Scale selection did not parse"),
    }
    assert!(matches!(
        parse_selector("NoSuchAlgorithm"),
        Selector::Unrecognized
    ));
    assert!(matches!(parse_selector(""), Selector::Unrecognized));
    assert!(matches!(parse_selector("Olken,3"), Selector::Olken));
}
