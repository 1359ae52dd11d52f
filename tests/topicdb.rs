use mls::topicdb::{DBRequest, DBResult, RequestError, TopicDB};

#[test]
fn insert() {
    let mut db = TopicDB::new();
    db.insert("test/test", 5);
    db.insert("test/abc", 5);

    assert_eq!(db.get("test/test"), DBResult::Found(5));
}

#[test]
fn fail_get() {
    let mut db = TopicDB::new();
    db.insert("test/test", 5);
    assert_eq!(db.get("test"), DBResult::NoMatch);
}

#[test]
fn insert_start_slash() {
    let mut db = TopicDB::new();
    db.insert("/test", 666);
    assert_eq!(db.get("/test"), DBResult::Found(666));
}

#[test]
fn insert_double_slash() {
    let mut db = TopicDB::new();
    db.insert("lol//test", 666);
    assert_eq!(db.get("lol//test"), DBResult::Found(666));
}

#[test]
fn wildcard() {
    let mut db = TopicDB::new();
    db.insert("in/test", 5);
    db.insert("in/abc", 4);
    db.insert("in/test/abc", 9);
    db.insert("out/abc", 1);

    assert_eq!(db.get("in/#"), DBResult::Found(4));
}

#[test]
fn solewildcard() {
    let mut db = TopicDB::new();
    db.insert("test/test", 5);
    db.insert("test/abc", 3);
    db.insert("in/test", 2);
    db.insert("in/abc", 9);
    db.insert("in/test/abc", 9);
    db.insert("out/abc", 1);
    db.insert("zero/abc/zero", 0);

    assert_eq!(db.get("#"), DBResult::Found(0));
}

#[test]
fn single_level_wildcard() {
    let mut db = TopicDB::new();
    db.insert("test/test", 3);
    db.insert("test/abc", 3);
    db.insert("in/2/test/test", 6);
    db.insert("in/2/abc/test", 9);
    db.insert("in/test/abc", 1);
    db.insert("out/abc", 1);
    db.insert("zero/abc/zero", 0);

    assert_eq!(db.get("in/2/+/test"), DBResult::Found(6));
}

#[test]
fn empty_store_matches_nothing() {
    let db = TopicDB::new();
    assert_eq!(db.get("a/b"), DBResult::NoMatch);
    assert_eq!(db.get("#"), DBResult::NoMatch);
    assert_eq!(db.get("+"), DBResult::NoMatch);
    assert_eq!(db.get(""), DBResult::NoMatch);
}

#[test]
fn round_trip_any_label() {
    let mut db = TopicDB::new();
    db.insert("a/b/c", 0);
    db.insert("x", u16::MAX);
    db.insert("", 17);
    assert_eq!(db.get("a/b/c"), DBResult::Found(0));
    assert_eq!(db.get("x"), DBResult::Found(u16::MAX));
    assert_eq!(db.get(""), DBResult::Found(17));
}

#[test]
fn later_insert_replaces() {
    let mut db = TopicDB::new();
    assert_eq!(db.insert("a/b", 3), None);
    assert_eq!(db.insert("a/b", 8), Some(3));
    assert_eq!(db.get("a/b"), DBResult::Found(8));
}

#[test]
fn unshared_topics_do_not_match() {
    let mut db = TopicDB::new();
    db.insert("a/b", 3);
    assert_eq!(db.get("a/c"), DBResult::NoMatch);
    assert_eq!(db.get("a/b/c"), DBResult::NoMatch);
    assert_eq!(db.get("a"), DBResult::NoMatch);
}

#[test]
fn empty_segment_is_kept() {
    let mut db = TopicDB::new();
    db.insert("lol//test", 666);
    assert_eq!(db.get("lol//test"), DBResult::Found(666));
    assert_eq!(db.get("lol/test"), DBResult::NoMatch);
}

#[test]
fn hash_counts_prefix_node_and_below() {
    let mut db = TopicDB::new();
    db.insert("in", 2);
    db.insert("in/a", 7);
    db.insert("in/a/b", 5);
    db.insert("inside", 1);
    db.insert("out", 0);
    assert_eq!(db.get("in/#"), DBResult::Found(2));
    assert_eq!(db.get("in/a/#"), DBResult::Found(5));
    assert_eq!(db.get("in/a/b/#"), DBResult::Found(5));
    assert_eq!(db.get("in/zzz/#"), DBResult::NoMatch);
}

#[test]
fn slash_hash_matches_leading_empty_segment() {
    let mut db = TopicDB::new();
    db.insert("/x", 4);
    db.insert("x", 1);
    assert_eq!(db.get("/#"), DBResult::Found(4));
}

#[test]
fn plus_matches_exactly_one_segment() {
    let mut db = TopicDB::new();
    db.insert("a/b", 1);
    db.insert("a/x/y/b", 2);
    db.insert("a/x/b", 7);
    db.insert("a//b", 5);
    assert_eq!(db.get("a/+/b"), DBResult::Found(5));
    db.insert("a/q/b", 3);
    assert_eq!(db.get("a/+/b"), DBResult::Found(3));
    assert_eq!(db.get("+/+"), DBResult::Found(1));
    assert_eq!(db.get("+"), DBResult::NoMatch);
}

#[test]
fn plus_inside_segment_is_literal() {
    let mut db = TopicDB::new();
    db.insert("a/b", 1);
    db.insert("a/c+d", 9);
    assert_eq!(db.get("a/c+d"), DBResult::Found(9));
    assert_eq!(db.get("a/b+"), DBResult::NoMatch);
}

#[test]
fn plus_then_hash() {
    let mut db = TopicDB::new();
    db.insert("a/b/c", 8);
    db.insert("a/d", 6);
    db.insert("a", 1);
    assert_eq!(db.get("a/+/#"), DBResult::Found(6));
}

#[test]
fn misplaced_hash_is_denied() {
    let mut db = TopicDB::new();
    db.insert("a/#/b", 1);
    let denied = DBResult::Denied(RequestError::InvalidTopic);
    assert_eq!(db.get("a/#/b"), denied);
    assert_eq!(db.get("#/a"), denied);
    assert_eq!(db.get("a#/#"), denied);
    assert_eq!(db.get("a/b#"), denied);
    assert_eq!(db.get("a/#/#"), denied);
}

#[test]
fn result_from_option() {
    assert_eq!(DBResult::from(Some(4)), DBResult::Found(4));
    assert_eq!(DBResult::from(None), DBResult::NoMatch);
}

#[test]
fn handle_serves_in_order() {
    let mut db = TopicDB::new();
    assert_eq!(db.handle(DBRequest::Insert("t/u".to_string(), 12)), None);
    assert_eq!(db.handle(DBRequest::Get("t/u".to_string())), Some(DBResult::Found(12)));
    assert_eq!(db.handle(DBRequest::Insert("t/u".to_string(), 3)), None);
    assert_eq!(db.handle(DBRequest::Get("t/#".to_string())), Some(DBResult::Found(3)));
    assert_eq!(db.handle(DBRequest::Get("t/v".to_string())), Some(DBResult::NoMatch));
}
