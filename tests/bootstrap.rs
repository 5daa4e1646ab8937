use hg_stdio::bootstrap::{bootstrap_request, first_reply, read_capabilities, split_capabilities, tag_remote};
use hg_stdio::response::ResponseError;

#[test]
fn bootstrap_sends_both_commands() {
    let mut expected = b"capabilities\nbetween\npairs 81\n".to_vec();
    expected.extend(std::iter::repeat(b'0').take(40));
    expected.push(b'-');
    expected.extend(std::iter::repeat(b'0').take(40));
    assert_eq!(bootstrap_request(), expected);
}

#[test]
fn empty_capabilities_then_between() {
    let output = b"0\n1\n\nNEXT";
    let (caps, used) = read_capabilities(output).unwrap();
    assert!(caps.is_empty());
    assert_eq!(used, 5);
    assert_eq!(&output[used..], b"NEXT");
}

#[test]
fn capability_list_then_between() {
    let output = b"26\nlookup branchmap\tunbundle\n1\n\n";
    let (caps, used) = read_capabilities(output).unwrap();
    assert_eq!(caps, vec![b"lookup".to_vec(), b"branchmap".to_vec(), b"unbundle".to_vec()]);
    assert_eq!(used, output.len());
}

#[test]
fn server_without_capabilities_command() {
    let output = b"1\n\n";
    let (caps, used) = read_capabilities(output).unwrap();
    assert!(caps.is_empty());
    assert_eq!(used, 3);
}

#[test]
fn missing_between_reply() {
    assert_eq!(read_capabilities(b"6\nlookup"), Err(ResponseError::Unterminated));
    assert_eq!(read_capabilities(b"x\n"), Err(ResponseError::BadLength));
}

#[test]
fn first_reply_shapes() {
    assert_eq!(first_reply(b"\n"), (Vec::new(), false));
    assert_eq!(first_reply(b""), (Vec::new(), true));
    assert_eq!(first_reply(b"a b"), (vec![b"a".to_vec(), b"b".to_vec()], true));
}

#[test]
fn capability_tokens() {
    assert_eq!(
        split_capabilities(b"  lookup  changegroupsubset\nunbundle=HG10GZ,HG10BZ \r\n"),
        vec![b"lookup".to_vec(), b"changegroupsubset".to_vec(), b"unbundle=HG10GZ,HG10BZ".to_vec()]
    );
    assert!(split_capabilities(b" \t\n").is_empty());
}

#[test]
fn remote_tag_prefix() {
    assert_eq!(tag_remote(b"abort: denied\n"), b"remote: abort: denied\n".to_vec());
    assert_eq!(tag_remote(b""), b"remote: ".to_vec());
}
