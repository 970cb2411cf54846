use wasmiot_orchestrator::guest::{
    handle_push, mut_ptrs_of, parse_last_value, prepare_args, ptrs_of, update_value,
};

fn datalist_result(items: Vec<&[u8]>) -> Vec<u8> {
    [b"{\"result\":[ ".to_vec(), items.join(&b", "[..]), b"]}".to_vec()].concat()
}

#[test]
fn lib_test_ptrs_of() {
    let (bytes, n, cap) = ptrs_of("foo".to_string().into_bytes());
    assert!(cap >= n as usize);
    let s = String::from_utf8(bytes[..n as usize].to_vec()).unwrap();
    assert_eq!(s, "foo".to_string());
}

#[test]
fn rpc_utils_test_ptrs_of() {
    let (bytes, n, cap) = ptrs_of("foo".to_string().into_bytes());
    assert!(cap >= n as usize);
    let s = String::from_utf8(bytes[..n as usize].to_vec()).unwrap();
    assert_eq!(s, "foo");
}

#[test]
fn test_mut_ptrs_of() {
    let (bs, n, cap) = mut_ptrs_of(b"bar".to_vec());
    assert!(cap >= n as usize);
    assert_eq!(&bs[..n as usize], b"bar");
}

#[test]
fn test_parse_last_value_empty() {
    assert_eq!(parse_last_value(&datalist_result(vec![])), Some(None));
}

#[test]
fn test_parse_last_value_one() {
    assert_eq!(parse_last_value(&datalist_result(vec![b"10"])), Some(Some(10)));
}

#[test]
fn test_parse_last_value_two() {
    assert_eq!(parse_last_value(&datalist_result(vec![b"42", b"100"])), Some(Some(100)));
}

#[test]
fn parse_last_value_rejects_gibberish() {
    assert_eq!(parse_last_value(&b"foo".to_vec()), None);
}

#[test]
fn parse_last_value_rejects_non_numbers_and_overflow() {
    assert_eq!(parse_last_value(&datalist_result(vec![b"ten"])), None);
    assert_eq!(parse_last_value(&datalist_result(vec![b"4294967296"])), None);
    assert_eq!(parse_last_value(&datalist_result(vec![b"4294967295"])), Some(Some(u32::MAX)));
    assert_eq!(parse_last_value(&datalist_result(vec![b"+7"])), Some(Some(7)));
    assert_eq!(parse_last_value(&b"[1, 2".to_vec()), None);
}

#[test]
fn test_update_value_ok() {
    assert_eq!(update_value(Ok(datalist_result(vec![b"10"]))), 11);
    assert_eq!(update_value(Ok(datalist_result(vec![b"10", b"100"]))), 101);
}

#[test]
fn test_update_value_empty() {
    assert_eq!(update_value(Ok(datalist_result(vec![]))), 0);
}

#[test]
fn handle_push_reads_the_pushed_value() {
    assert_eq!(handle_push(Ok(datalist_result(vec![b"1", b"2"]))), Some(2));
    assert_eq!(handle_push(Ok(datalist_result(vec![]))), None);
    assert_eq!(handle_push(Err(3)), None);
}

#[test]
fn prepare_args_sizes_the_buffer() {
    let (m, m_len, f, f_len, io, io_len, io_cap) = prepare_args("core:Datalist", "push", Some(vec![1, 2, 3]), 2);
    assert_eq!(m, b"core:Datalist".to_vec());
    assert_eq!(m_len, 13);
    assert_eq!(f, b"push".to_vec());
    assert_eq!(f_len, 4);
    assert_eq!(io, vec![1, 2, 3]);
    assert_eq!(io_len, 3);
    assert!(io_cap >= 3);
    let (_, _, _, _, io, io_len, _) = prepare_args("m", "f", Some(vec![9]), 4);
    assert_eq!(io, vec![9, 0, 0, 0]);
    assert_eq!(io_len, 4);
    let (_, _, _, _, io, _, _) = prepare_args("m", "f", None, 3);
    assert_eq!(io, vec![0, 0, 0]);
}
