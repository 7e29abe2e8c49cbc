use vec_cache::{Error, ErrorKind, FileOp, Rewrite, VecCache};

fn enc_line(r: &String) -> Result<Vec<u8>, Error> {
    Ok(r.as_bytes().to_vec())
}

fn dec_line(b: Vec<u8>) -> Result<Vec<String>, Error> {
    match String::from_utf8(b) {
        Ok(s) => Ok(s.chars().map(|c| c.to_string()).collect()),
        Err(_) => Err(Error::deserialize()),
    }
}

fn enc_framed(r: &String) -> Result<Vec<u8>, Error> {
    if r.contains('\n') {
        return Err(Error::serialize());
    }
    let mut v = r.as_bytes().to_vec();
    v.push(b'\n');
    Ok(v)
}

fn dec_framed(b: Vec<u8>) -> Result<Vec<String>, Error> {
    let s = match std::str::from_utf8(&b) {
        Ok(s) => s,
        Err(e) => return Err(e.into()),
    };
    if !s.is_empty() && !s.ends_with('\n') {
        return Err(Error::deserialize());
    }
    Ok(s.lines().map(|l| l.to_string()).collect())
}

/// Applies a file operation to an in-memory file and returns its outcome.
fn apply(file: &mut Vec<u8>, op: FileOp) -> Result<(), Error> {
    match op {
        FileOp::Append(b) => {
            file.extend_from_slice(&b);
            Ok(())
        }
        FileOp::Rewrite(rw) => rewrite(file, rw).map(|_| ()),
    }
}

fn rewrite(file: &mut Vec<u8>, rw: Rewrite) -> Result<usize, Error> {
    file.clear();
    file.extend_from_slice(&rw.bytes);
    rw.outcome
}

fn s(x: &str) -> String {
    x.to_string()
}

#[test]
fn it_works() {
    let result = 2 + 2;
    assert_eq!(result, 4);
}

#[test]
fn lib() {
    struct Data {
        text: String,
    }
    fn ser(d: &Data) -> Result<Vec<u8>, Error> {
        Ok(format!("{{\"text\":\"{}\"}}", d.text).into_bytes())
    }
    fn de(_d: Vec<u8>) -> Result<Vec<Data>, Error> {
        Err(Error::deserialize())
    }
    let mut c = VecCache::create(None, ser, de);
    c.push(Data { text: "test".into() }).unwrap();
    assert_eq!(1, c.len());
    assert_eq!(c.iter()[0].text, "test");
}

#[test]
fn scenario_limit_three() {
    let mut file = Vec::new();
    let mut c = VecCache::create(Some(3), enc_line, dec_line);
    let op = c.push(s("a")).unwrap();
    assert!(matches!(op, FileOp::Append(_)));
    apply(&mut file, op).unwrap();
    assert_eq!(file, b"a".to_vec());
    let op = c.push(s("b")).unwrap();
    assert!(matches!(op, FileOp::Append(_)));
    apply(&mut file, op).unwrap();
    assert_eq!(file, b"ab".to_vec());
    let op = c.push(s("c")).unwrap();
    assert!(matches!(op, FileOp::Rewrite(_)));
    apply(&mut file, op).unwrap();
    assert_eq!(file, b"abc".to_vec());
    assert_eq!(c.len(), 3);
}

#[test]
fn scenario_limit_two_drops_newest() {
    let mut file = Vec::new();
    let mut c = VecCache::create(Some(2), enc_line, dec_line);
    let op = c.push(s("a")).unwrap();
    apply(&mut file, op).unwrap();
    assert_eq!(file, b"a".to_vec());
    let op = c.push(s("b")).unwrap();
    assert!(matches!(op, FileOp::Rewrite(_)));
    apply(&mut file, op).unwrap();
    assert_eq!(file, b"ab".to_vec());
    let op = c.push(s("c")).unwrap();
    assert!(matches!(op, FileOp::Rewrite(_)));
    apply(&mut file, op).unwrap();
    assert_eq!(c.len(), 2);
    assert_eq!(file, b"ab".to_vec());
    assert_eq!(c.iter().to_vec(), vec![s("a"), s("b")]);
}

#[test]
fn round_trip_unbounded() {
    let mut file = Vec::new();
    let mut c = VecCache::create(None, enc_framed, dec_framed);
    let rs = vec![s("one"), s("two"), s(""), s("four")];
    for r in rs.iter() {
        let op = c.push(r.clone()).unwrap();
        assert!(matches!(op, FileOp::Append(_)));
        apply(&mut file, op).unwrap();
    }
    assert_eq!(rewrite(&mut file, c.flush()).unwrap(), usize::MAX);
    assert_eq!(file, b"one\ntwo\n\nfour\n".to_vec());
    let c2 = VecCache::open(file.clone(), None, enc_framed, dec_framed).unwrap();
    assert_eq!(c2.iter().to_vec(), rs);
}

#[test]
fn open_keeps_order() {
    let mut file = Vec::new();
    let mut c = VecCache::create(Some(5), enc_framed, dec_framed);
    for r in ["x", "y", "z"] {
        c.push_buf(s(r));
    }
    assert_eq!(rewrite(&mut file, c.flush()).unwrap(), 5);
    let c2 = VecCache::open(file, Some(5), enc_framed, dec_framed).unwrap();
    assert_eq!(c2.iter().to_vec(), vec![s("x"), s("y"), s("z")]);
}

#[test]
fn open_does_not_trim() {
    let c = VecCache::open(b"p\nq\nr\n".to_vec(), Some(2), enc_framed, dec_framed).unwrap();
    assert_eq!(c.len(), 3);
    // A flush writes only the newest `limit` records.
    let rw = c.flush();
    assert_eq!(rw.bytes, b"q\nr\n".to_vec());
    assert_eq!(rw.outcome.unwrap(), 2);
}

#[test]
fn open_then_sync_limit_trims_newest() {
    let mut c = VecCache::open(b"p\nq\nr\n".to_vec(), Some(2), enc_framed, dec_framed).unwrap();
    c.sync_limit();
    assert_eq!(c.iter().to_vec(), vec![s("p"), s("q")]);
}

#[test]
fn open_rejects_bad_bytes() {
    let res = VecCache::open(b"no newline".to_vec(), None, enc_framed, dec_framed);
    match res {
        Err(e) => assert!(matches!(e.error, ErrorKind::Deserialize())),
        Ok(_) => panic!("bytes without a final newline were accepted"),
    }
}

#[test]
fn open_reports_utf8_failure() {
    let res = VecCache::open(vec![0xff, b'\n'], None, enc_framed, dec_framed);
    match res {
        Err(e) => assert!(matches!(e.error, ErrorKind::Utf8(_))),
        Ok(_) => panic!("malformed text was accepted"),
    }
}

#[test]
fn capacity_bound_after_every_push() {
    let mut c = VecCache::create(Some(3), enc_framed, dec_framed);
    for i in 0..10 {
        c.push(format!("r{}", i)).unwrap();
        assert!(c.len() <= 3);
    }
    assert_eq!(c.iter().to_vec(), vec![s("r0"), s("r1"), s("r2")]);
}

#[test]
fn failed_encode_changes_nothing() {
    let mut file = Vec::new();
    let mut c = VecCache::create(Some(4), enc_framed, dec_framed);
    apply(&mut file, c.push(s("a")).unwrap()).unwrap();
    let before = file.clone();
    let res = c.push(s("bad\nrecord"));
    match res {
        Err(e) => assert!(matches!(e.error, ErrorKind::Serialize())),
        Ok(_) => panic!("the encoder's refusal was lost"),
    }
    assert_eq!(c.len(), 1);
    assert_eq!(file, before);
}

#[test]
fn flush_twice_writes_same_bytes() {
    let mut c = VecCache::create(Some(3), enc_framed, dec_framed);
    c.push(s("a")).unwrap();
    c.push(s("b")).unwrap();
    let first = c.flush();
    let second = c.flush();
    assert_eq!(first.bytes, second.bytes);
    assert_eq!(first.bytes, b"a\nb\n".to_vec());
}

#[test]
fn flush_of_empty_cache_is_empty() {
    let c = VecCache::create(Some(1), enc_framed, dec_framed);
    let rw = c.flush();
    assert!(rw.bytes.is_empty());
    assert_eq!(rw.outcome.unwrap(), 1);
}

#[test]
fn flush_stops_at_first_refusal() {
    let mut c = VecCache::create(None, enc_framed, dec_framed);
    c.push_buf(s("a"));
    c.push_buf(s("b\nc"));
    c.push_buf(s("d"));
    let rw = c.flush();
    assert_eq!(rw.bytes, b"a\n".to_vec());
    match rw.outcome {
        Err(e) => assert!(matches!(e.error, ErrorKind::Serialize())),
        Ok(_) => panic!("a refused record was written"),
    }
}

#[test]
fn push_buf_applies_limit() {
    let mut c = VecCache::create(Some(2), enc_line, dec_line);
    c.push_buf(s("a"));
    c.push_buf(s("b"));
    c.push_buf(s("c"));
    assert_eq!(c.iter().to_vec(), vec![s("a"), s("b")]);
}

#[test]
fn limit_zero_keeps_nothing() {
    let mut c = VecCache::create(Some(0), enc_line, dec_line);
    let op = c.push(s("a")).unwrap();
    assert_eq!(c.len(), 0);
    match op {
        FileOp::Rewrite(rw) => {
            assert!(rw.bytes.is_empty());
            assert_eq!(rw.outcome.unwrap(), 0);
        }
        FileOp::Append(_) => panic!("a full cache appended"),
    }
}

#[test]
fn append_carries_encoded_bytes() {
    let mut c = VecCache::create(Some(3), enc_framed, dec_framed);
    match c.push(s("hi")).unwrap() {
        FileOp::Append(b) => assert_eq!(b, b"hi\n".to_vec()),
        FileOp::Rewrite(_) => panic!("a push below the limit rewrote the file"),
    }
}

#[test]
fn error_constructors() {
    assert!(matches!(Error::serialize().error, ErrorKind::Serialize()));
    assert!(matches!(Error::deserialize().error, ErrorKind::Deserialize()));
    let io = std::io::Error::new(std::io::ErrorKind::Other, "disk");
    let e: Error = io.into();
    assert!(matches!(e.error, ErrorKind::Io(_)));
}
