use dns_server::cache::{Cache, CacheEntry};
use dns_server::message::{Domain, ResourceRecordData, IPV4};

fn at(parts: &[&str]) -> Domain {
    Domain(parts.iter().map(|l| l.to_string()).collect())
}

fn address(last: u8) -> Vec<ResourceRecordData> {
    vec![ResourceRecordData::A(IPV4(10, 0, 0, last))]
}

#[test]
fn nothing_is_bound_in_a_new_cache() {
    let cache = Cache::new();
    assert_eq!(cache.resolve(at(&["localhost"])), vec![]);
    assert_eq!(cache.resolve(at(&["www", "example", "com"])), vec![]);
}

#[test]
fn empty_name_has_no_records() {
    let mut cache = Cache::new();
    cache.bind(at(&["com"]), CacheEntry::Record(address(1)));
    assert_eq!(cache.resolve(Domain(vec![])), vec![]);
}

#[test]
fn bound_name_resolves_to_what_was_bound() {
    let mut cache = Cache::new();
    cache.bind(at(&["www", "example", "com"]), CacheEntry::Record(address(1)));
    cache.bind(at(&["mail", "example", "com"]), CacheEntry::Record(address(2)));
    cache.bind(at(&["example", "org"]), CacheEntry::Record(address(3)));
    assert_eq!(cache.resolve(at(&["www", "example", "com"])), address(1));
    assert_eq!(cache.resolve(at(&["mail", "example", "com"])), address(2));
    assert_eq!(cache.resolve(at(&["example", "org"])), address(3));
}

#[test]
fn rebinding_replaces_the_entry() {
    let mut cache = Cache::new();
    cache.bind(at(&["a", "b"]), CacheEntry::Record(address(1)));
    cache.bind(at(&["a", "b"]), CacheEntry::Record(address(2)));
    assert_eq!(cache.resolve(at(&["a", "b"])), address(2));
}

#[test]
fn terminal_record_answers_for_deeper_names() {
    let mut cache = Cache::new();
    cache.bind(at(&["example", "com"]), CacheEntry::Record(address(1)));
    assert_eq!(cache.resolve(at(&["www", "example", "com"])), address(1));
    assert_eq!(cache.resolve(at(&["a", "b", "c", "example", "com"])), address(1));
}

#[test]
fn zone_answers_with_its_own_records_for_its_own_name() {
    let mut cache = Cache::new();
    cache.bind(at(&["www", "example", "com"]), CacheEntry::Record(address(1)));
    assert_eq!(cache.resolve(at(&["example", "com"])), vec![]);
    assert_eq!(cache.resolve(at(&["com"])), vec![]);
    let mut inner = Cache::new();
    inner.bind(at(&["www"]), CacheEntry::Record(address(2)));
    cache.bind(at(&["example", "org"]), CacheEntry::Zone(address(3), inner));
    assert_eq!(cache.resolve(at(&["example", "org"])), address(3));
    assert_eq!(cache.resolve(at(&["www", "example", "org"])), address(2));
    assert_eq!(cache.resolve(at(&["ftp", "example", "org"])), vec![]);
}

#[test]
fn binding_beneath_a_record_turns_it_into_a_zone() {
    let mut cache = Cache::new();
    cache.bind(at(&["example", "com"]), CacheEntry::Record(address(1)));
    cache.bind(at(&["www", "example", "com"]), CacheEntry::Record(address(2)));
    assert_eq!(cache.resolve(at(&["example", "com"])), address(1));
    assert_eq!(cache.resolve(at(&["www", "example", "com"])), address(2));
    assert_eq!(cache.resolve(at(&["ftp", "example", "com"])), vec![]);
}

#[test]
fn binding_beneath_a_zone_keeps_its_records_and_names() {
    let mut cache = Cache::new();
    cache.bind(at(&["example", "com"]), CacheEntry::Record(address(1)));
    cache.bind(at(&["www", "example", "com"]), CacheEntry::Record(address(2)));
    cache.bind(at(&["mail", "example", "com"]), CacheEntry::Record(address(3)));
    assert_eq!(cache.resolve(at(&["example", "com"])), address(1));
    assert_eq!(cache.resolve(at(&["www", "example", "com"])), address(2));
    assert_eq!(cache.resolve(at(&["mail", "example", "com"])), address(3));
}

#[test]
fn binding_at_a_zone_replaces_what_was_beneath() {
    let mut cache = Cache::new();
    cache.bind(at(&["www", "example", "com"]), CacheEntry::Record(address(1)));
    cache.bind(at(&["example", "com"]), CacheEntry::Record(address(2)));
    assert_eq!(cache.resolve(at(&["example", "com"])), address(2));
    assert_eq!(cache.resolve(at(&["www", "example", "com"])), address(2));
}

#[test]
fn binding_leaves_other_roots_alone() {
    let mut cache = Cache::new();
    cache.bind(at(&["example", "com"]), CacheEntry::Record(address(1)));
    cache.bind(at(&["www", "example", "org"]), CacheEntry::Record(address(2)));
    assert_eq!(cache.resolve(at(&["example", "com"])), address(1));
    assert_eq!(cache.resolve(at(&["x", "example", "com"])), address(1));
}

#[test]
fn labels_are_walked_from_the_last_to_the_first() {
    let mut cache = Cache::new();
    cache.bind(at(&["a", "b"]), CacheEntry::Record(address(1)));
    assert_eq!(cache.resolve(at(&["a", "b"])), address(1));
    assert_eq!(cache.resolve(at(&["b", "a"])), vec![]);
    assert_eq!(cache.resolve(at(&["b"])), vec![]);
    assert_eq!(cache.resolve(at(&["a"])), vec![]);
}

#[test]
fn records_come_back_in_the_order_they_were_bound_in() {
    let mut cache = Cache::new();
    let records = vec![
        ResourceRecordData::Options(vec![1, 2]),
        ResourceRecordData::A(IPV4(1, 1, 1, 1)),
        ResourceRecordData::A(IPV4(2, 2, 2, 2)),
    ];
    cache.bind(at(&["host"]), CacheEntry::Record(records.clone()));
    assert_eq!(cache.resolve(at(&["host"])), records);
}

#[test]
fn binding_survives_later_binds_that_are_not_above_it() {
    let mut cache = Cache::new();
    cache.bind(at(&["www", "example", "com"]), CacheEntry::Record(address(1)));
    cache.bind(at(&["mail", "example", "com"]), CacheEntry::Record(address(2)));
    cache.bind(at(&["deep", "www", "example", "com"]), CacheEntry::Record(address(3)));
    cache.bind(at(&["example", "org"]), CacheEntry::Record(address(4)));
    cache.bind(at(&["com", "example"]), CacheEntry::Record(address(5)));
    assert_eq!(cache.resolve(at(&["www", "example", "com"])), address(1));
    assert_eq!(cache.resolve(at(&["mail", "example", "com"])), address(2));
    assert_eq!(cache.resolve(at(&["deep", "www", "example", "com"])), address(3));
    cache.bind(at(&["com"]), CacheEntry::Record(address(6)));
    assert_eq!(cache.resolve(at(&["www", "example", "com"])), address(6));
}

#[test]
fn name_beside_a_later_bind_beneath_a_record_loses_its_answer() {
    let mut cache = Cache::new();
    cache.bind(at(&["example", "com"]), CacheEntry::Record(address(1)));
    assert_eq!(cache.resolve(at(&["ftp", "example", "com"])), address(1));
    cache.bind(at(&["www", "example", "com"]), CacheEntry::Record(address(2)));
    assert_eq!(cache.resolve(at(&["ftp", "example", "com"])), vec![]);
    assert_eq!(cache.resolve(at(&["example", "com"])), address(1));
}
