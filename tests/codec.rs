use pow::codec::{
    write_cstring, write_i32_le, write_slice, write_string, write_u16_le, write_u32_le, write_u64_le, write_u8,
    Error, Reader,
};

#[test]
fn reads_little_endian_integers() {
    let data = [0x34u8, 0x12, 0x78, 0x56, 0x34, 0x12, 0xFF, 0xFF, 0xFF, 0xFF, 1, 0, 0, 0, 0, 0, 0, 0x80];
    let mut r = Reader::new(&data);
    assert_eq!(r.read_u16_le().unwrap(), 0x1234);
    assert_eq!(r.read_u32_le().unwrap(), 0x12345678);
    assert_eq!(r.read_i32_le().unwrap(), -1);
    assert_eq!(r.read_u64_le().unwrap(), 0x8000_0000_0000_0001);
    assert_eq!(r.remaining(), 0);
    assert_eq!(r.position(), 18);
}

#[test]
fn short_read_fails_without_consuming() {
    let data = [1u8, 2, 3];
    let mut r = Reader::new(&data);
    assert_eq!(r.read_u32_le(), Err(Error::EOF));
    assert_eq!(r.position(), 0);
    assert_eq!(r.read_exact_slice::<3>().unwrap(), [1, 2, 3]);
    assert_eq!(r.read_u8(), Err(Error::EOF));
}

#[test]
fn bounded_read_of_whole_budget_exhausts_it() {
    let data = [10u8, 20, 30, 40, 50];
    let r = Reader::new(&data);
    let mut t = r.take(3);
    assert_eq!(t.read_slice(3).unwrap(), vec![10, 20, 30]);
    assert_eq!(t.limit(), 0);
    assert_eq!(t.read_u8(), Err(Error::Exhausted));
    let mut inner = t.into_inner();
    assert_eq!(inner.position(), 3);
    assert_eq!(inner.read_u8().unwrap(), 40);
}

#[test]
fn bounded_read_over_budget_leaves_stream_untouched() {
    let data = [10u8, 20, 30, 40, 50];
    let r = Reader::new(&data);
    let mut t = r.take(2);
    assert_eq!(t.read_slice(3), Err(Error::Exhausted));
    assert_eq!(t.limit(), 2);
    let mut inner = t.into_inner();
    assert_eq!(inner.position(), 0);
    assert_eq!(inner.read_u8().unwrap(), 10);
}

#[test]
fn bounded_read_past_end_of_stream_is_eof() {
    let data = [1u8, 2];
    let mut t = Reader::new(&data).take(10);
    assert_eq!(t.read_u32_le(), Err(Error::EOF));
    assert_eq!(t.limit(), 10);
}

#[test]
fn bounded_adapter_can_be_bounded_further() {
    let data = [1u8, 2, 3, 4, 5, 6];
    let t = Reader::new(&data).take(4);
    let mut narrower = t.take(2);
    assert_eq!(narrower.limit(), 2);
    assert_eq!(narrower.read_u16_le().unwrap(), 0x0201);
    assert_eq!(narrower.read_u8(), Err(Error::Exhausted));
    let wider = t.take(100);
    assert_eq!(wider.limit(), 4);
}

#[test]
fn reads_strings() {
    let data = b"powXYZ";
    let mut r = Reader::new(data);
    assert_eq!(r.read_string(3).unwrap(), "pow");
    assert_eq!(r.read_string(4), Err(Error::EOF));
    let bad = [0xFFu8, 0xFE];
    let mut r = Reader::new(&bad);
    assert_eq!(r.read_string(2), Err(Error::InvalidUtf8));
    assert_eq!(r.position(), 0);
}

#[test]
fn reads_cstrings() {
    let data = b"abc\0def";
    let mut r = Reader::new(data);
    assert_eq!(r.read_cstring(None).unwrap(), "abc");
    assert_eq!(r.position(), 4);
    assert_eq!(r.read_cstring(None), Err(Error::EOF));
    assert_eq!(r.position(), 4);

    let mut r = Reader::new(data);
    assert_eq!(r.read_cstring(Some(2)).unwrap(), "ab");
    assert_eq!(r.position(), 2);

    let mut r = Reader::new(data);
    assert_eq!(r.read_cstring(Some(3)).unwrap(), "abc");
    assert_eq!(r.position(), 3);

    let mut r = Reader::new(data);
    assert_eq!(r.read_cstring(Some(10)).unwrap(), "abc");
    assert_eq!(r.position(), 4);

    let empty = [0u8, 7];
    let mut r = Reader::new(&empty);
    assert_eq!(r.read_cstring(Some(5)).unwrap(), "");
    assert_eq!(r.position(), 1);

    let short = b"xy";
    let mut r = Reader::new(short);
    assert_eq!(r.read_cstring(Some(5)), Err(Error::EOF));
}

#[test]
fn writes_primitives() {
    let mut out = Vec::new();
    write_u8(&mut out, 7);
    write_u16_le(&mut out, 0x1234);
    write_u32_le(&mut out, 0xAABBCCDD);
    write_i32_le(&mut out, -2);
    write_u64_le(&mut out, 1);
    write_slice(&mut out, &[9, 9]);
    write_string(&mut out, "hi");
    write_cstring(&mut out, "ok");
    assert_eq!(
        out,
        vec![7, 0x34, 0x12, 0xDD, 0xCC, 0xBB, 0xAA, 0xFE, 0xFF, 0xFF, 0xFF, 1, 0, 0, 0, 0, 0, 0, 0, 9, 9, b'h', b'i', b'o', b'k', 0]
    );
}

#[test]
fn write_then_read_round_trips() {
    let mut out = Vec::new();
    write_u32_le(&mut out, 0xDEADBEEF);
    write_i32_le(&mut out, i32::MIN);
    write_cstring(&mut out, "name");
    let mut r = Reader::new(&out);
    assert_eq!(r.read_u32_le().unwrap(), 0xDEADBEEF);
    assert_eq!(r.read_i32_le().unwrap(), i32::MIN);
    assert_eq!(r.read_cstring(None).unwrap(), "name");
    assert_eq!(r.remaining(), 0);
}

#[test]
fn signed_bytes() {
    let mut out = Vec::new();
    pow::codec::write_i8(&mut out, -3);
    assert_eq!(out, vec![0xFD]);
    let mut r = Reader::new(&out);
    assert_eq!(r.read_i8(), Ok(-3));
    assert_eq!(r.read_i8(), Err(Error::EOF));
    let mut t = Reader::new(&out).take(0);
    assert_eq!(t.read_i8(), Err(Error::Exhausted));
}

#[test]
fn nested_adapter_charges_outer_one() {
    let data = [1u8, 2, 3, 4, 5, 6, 7, 8];
    let mut outer = Reader::new(&data).take(6);
    assert_eq!(outer.read_u8(), Ok(1));
    let mut nested = outer.take(3);
    assert_eq!(nested.read_u16_le(), Ok(0x0302));
    assert_eq!(nested.limit(), 1);
    assert_eq!(outer.resume(nested), Ok(()));
    assert_eq!(outer.limit(), 3);
    assert_eq!(outer.read_u8(), Ok(4));
    assert_eq!(outer.limit(), 2);
    let mut inner = outer.into_inner();
    assert_eq!(inner.position(), 4);
    assert_eq!(inner.read_u8(), Ok(5));
}

#[test]
fn resume_refuses_adapter_behind_or_beyond_budget() {
    let data = [1u8, 2, 3, 4, 5, 6];
    let start = Reader::new(&data).take(6);
    let mut outer = start;
    outer.read_u16_le().unwrap();
    assert_eq!(outer.resume(start), Err(Error::Exhausted));
    assert_eq!(outer.limit(), 4);
    let mut small = Reader::new(&data).take(1);
    let mut wide = Reader::new(&data).take(6);
    wide.read_u32_le().unwrap();
    assert_eq!(small.resume(wide), Err(Error::Exhausted));
    assert_eq!(small.limit(), 1);
}

#[test]
fn cstring_written_then_read_back() {
    let mut out = Vec::new();
    write_cstring(&mut out, "héllo");
    out.push(0x41);
    let mut r = Reader::new(&out);
    assert_eq!(r.read_cstring(None).unwrap(), "héllo");
    assert_eq!(r.position(), "héllo".len() + 1);
    assert_eq!(r.read_u8(), Ok(0x41));
}

#[test]
fn cstring_with_invalid_utf8() {
    let data = [0xFFu8, 0x00];
    let mut r = Reader::new(&data);
    assert_eq!(r.read_cstring(None), Err(Error::InvalidUtf8));
    assert_eq!(r.position(), 0);
}
