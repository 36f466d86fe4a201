use resp_store::{
    Backend, BulkString, Command, CommandError, HGet, HGetAll, HSet, Get, RespArray, RespFrame,
    SAdd, SetCmd, SIsMember,
};

fn bulk(s: &[u8]) -> RespFrame {
    RespFrame::BulkString(BulkString::new(s.to_vec()))
}

fn req(parts: &[&[u8]]) -> RespArray {
    RespArray(parts.iter().map(|p| bulk(p)).collect())
}

#[test]
fn sadd_idempotence() {
    let mut b = Backend::new();
    assert!(b.sadd("k".to_string(), "m".to_string()));
    assert!(b.sismember("k", "m"));
    assert!(!b.sadd("k".to_string(), "m".to_string()));
    assert!(b.sismember("k", "m"));
}

#[test]
fn sismember_absent_is_false() {
    let mut b = Backend::new();
    assert!(!b.sismember("nosuch", "m"));
    b.sadd("k".to_string(), "m".to_string());
    assert!(!b.sismember("k", "other"));
    assert!(!b.sismember("nosuch", "m"));
}

#[test]
fn distinct_keys_do_not_interfere() {
    let mut b = Backend::new();
    for key in ["a", "b", "c"] {
        for member in ["x", "y", "z"] {
            assert!(b.sadd(key.to_string(), member.to_string()));
        }
    }
    for key in ["a", "b", "c"] {
        for member in ["x", "y", "z"] {
            assert!(b.sismember(key, member));
        }
        assert!(!b.sismember(key, "w"));
    }
}

#[test]
fn scalar_get_set() {
    let mut b = Backend::new();
    assert_eq!(b.get("k"), None);
    b.set("k".to_string(), RespFrame::Integer(5));
    assert_eq!(b.get("k"), Some(RespFrame::Integer(5)));
    assert_eq!(b.get("other"), None);
    b.set("k".to_string(), bulk(b"v2"));
    assert_eq!(b.get("k"), Some(bulk(b"v2")));
}

#[test]
fn hash_get_set_getall() {
    let mut b = Backend::new();
    assert_eq!(b.hget("h", "f"), None);
    b.hset("h".to_string(), "f1".to_string(), RespFrame::Integer(1));
    b.hset("h".to_string(), "f2".to_string(), RespFrame::Integer(2));
    b.hset("h".to_string(), "f1".to_string(), RespFrame::Integer(3));
    assert_eq!(b.hget("h", "f1"), Some(RespFrame::Integer(3)));
    assert_eq!(b.hget("h", "f2"), Some(RespFrame::Integer(2)));
    assert_eq!(b.hget("h", "f3"), None);
    assert_eq!(b.hgetall("nosuch"), None);
    let all = b.hgetall("h").unwrap();
    assert_eq!(all.len(), 2);
    assert_eq!(all[0], ("f1".to_string(), RespFrame::Integer(3)));
    assert_eq!(all[1], ("f2".to_string(), RespFrame::Integer(2)));
}

#[test]
fn sadd_arity_validation() {
    assert_eq!(
        SAdd::try_from(req(&[b"SADD"])).unwrap_err(),
        CommandError::InvalidCommand
    );
    assert_eq!(
        SAdd::try_from(req(&[b"SADD", b"key"])).unwrap_err(),
        CommandError::InvalidCommand
    );
    let mut b = Backend::new();
    let cmd = SAdd::try_from(req(&[b"SADD", b"key", b"m1", b"m2", b"m1"])).unwrap();
    let reply = cmd.execute(&mut b);
    assert_eq!(
        reply,
        RespFrame::Array(vec![
            RespFrame::Integer(1),
            RespFrame::Integer(1),
            RespFrame::Integer(0),
        ])
    );
}

#[test]
fn sadd_then_sismember_scenario() {
    let mut b = Backend::new();
    let cmd = SAdd::try_from(req(&[b"SADD", b"myset", b"a", b"b"])).unwrap();
    cmd.execute(&mut b);
    let q = SIsMember::try_from(req(&[b"SISMEMBER", b"myset", b"a"])).unwrap();
    assert_eq!(q.execute(&b), RespFrame::Integer(1));
    let q = SIsMember::try_from(req(&[b"SISMEMBER", b"myset", b"z"])).unwrap();
    assert_eq!(q.execute(&b), RespFrame::Integer(0));
}

#[test]
fn invalid_utf8_key_is_invalid_argument() {
    assert_eq!(
        SAdd::try_from(req(&[b"SADD", b"\xff\xfe", b"m"])).unwrap_err(),
        CommandError::InvalidArgument
    );
    assert_eq!(
        SIsMember::try_from(req(&[b"SISMEMBER", b"k", b"\xff"])).unwrap_err(),
        CommandError::InvalidArgument
    );
}

#[test]
fn non_bulk_argument_is_invalid_argument() {
    let arr = RespArray(vec![bulk(b"get"), RespFrame::Integer(3)]);
    assert_eq!(Get::try_from(arr).unwrap_err(), CommandError::InvalidArgument);
}

#[test]
fn unknown_command_is_invalid_command() {
    assert_eq!(
        Command::try_from(req(&[b"FLUSHALL"])).unwrap_err(),
        CommandError::InvalidCommand
    );
    assert_eq!(
        SIsMember::try_from(req(&[b"SISMEMBER", b"k"])).unwrap_err(),
        CommandError::InvalidCommand
    );
}

#[test]
fn command_pipeline_end_to_end() {
    let mut b = Backend::new();
    let reply = Command::try_from(req(&[b"SET", b"greeting", b"hello"]))
        .unwrap()
        .execute(&mut b);
    assert_eq!(reply, RespFrame::Integer(1));
    let reply = Command::try_from(req(&[b"GET", b"greeting"]))
        .unwrap()
        .execute(&mut b);
    assert_eq!(reply, bulk(b"hello"));
    let reply = Command::try_from(req(&[b"GET", b"nosuch"]))
        .unwrap()
        .execute(&mut b);
    assert_eq!(reply, RespFrame::NullBulkString(resp_store::NullBulkString));

    let reply = Command::try_from(req(&[b"HSET", b"h", b"f", b"v"]))
        .unwrap()
        .execute(&mut b);
    assert_eq!(reply, RespFrame::Integer(1));
    let reply = Command::try_from(req(&[b"HGET", b"h", b"f"]))
        .unwrap()
        .execute(&mut b);
    assert_eq!(reply, bulk(b"v"));
    let reply = Command::try_from(req(&[b"HGETALL", b"h"]))
        .unwrap()
        .execute(&mut b);
    assert_eq!(reply, RespFrame::Array(vec![bulk(b"f"), bulk(b"v")]));
    let reply = Command::try_from(req(&[b"HGETALL", b"nosuch"]))
        .unwrap()
        .execute(&mut b);
    assert_eq!(reply, RespFrame::NullArray(resp_store::RespNullArray));

    let reply = Command::try_from(req(&[b"sadd", b"s", b"m"]))
        .unwrap()
        .execute(&mut b);
    assert_eq!(reply, RespFrame::Array(vec![RespFrame::Integer(1)]));
    let reply = Command::try_from(req(&[b"SIsMemBer", b"s", b"m"]))
        .unwrap()
        .execute(&mut b);
    assert_eq!(reply, RespFrame::Integer(1));
}

#[test]
fn hget_arity_and_errors() {
    assert_eq!(
        HGet::try_from(req(&[b"HGET", b"k"])).unwrap_err(),
        CommandError::InvalidCommand
    );
    assert_eq!(
        HSet::try_from(req(&[b"HSET", b"k", b"f"])).unwrap_err(),
        CommandError::InvalidCommand
    );
    assert_eq!(
        HGetAll::try_from(req(&[b"HGETALL"])).unwrap_err(),
        CommandError::InvalidCommand
    );
    assert_eq!(
        SetCmd::try_from(req(&[b"SET", b"k"])).unwrap_err(),
        CommandError::InvalidCommand
    );
    assert_eq!(
        Get::try_from(req(&[b"WRONG", b"k"])).unwrap_err(),
        CommandError::InvalidCommand
    );
}
