use notes_cf::multipart::{boundary_from_content_type, part_content, part_name, split_parts};

#[test]
fn boundary_from_header() {
    assert_eq!(
        boundary_from_content_type(b"multipart/form-data; boundary=----abc"),
        Some(b"------abc".to_vec())
    );
    assert_eq!(boundary_from_content_type(b"a=b=c"), Some(b"--b=c".to_vec()));
    assert_eq!(boundary_from_content_type(b"text/plain"), None);
}

#[test]
fn splits_between_markers() {
    let body = b"--XY\r\nA\r\n--XY\r\nBB\r\n--XY--\r\n";
    let parts = split_parts(body, b"--XY").unwrap();
    assert_eq!(parts, vec![b"\r\nA\r\n".to_vec(), b"\r\nBB\r\n".to_vec()]);
    assert_eq!(split_parts(b"nothing here", b"--XY"), None);
    assert_eq!(split_parts(b"only --XY once", b"--XY"), Some(vec![]));
    assert_eq!(split_parts(b"aaaa", b"aa"), Some(vec![vec![]]));
}

#[test]
fn field_name_of_part() {
    let part = b"\r\nContent-Disposition: form-data; name=\"lecture one\"; filename=\"x.wav\"\r\n\r\nDATA\r\n";
    assert_eq!(part_name(part), Some(b"lecture one".to_vec()));
    assert_eq!(part_name(b"Content-Disposition: form-data\r\n\r\n"), None);
}

#[test]
fn content_of_part() {
    assert_eq!(part_content(b"h: v\r\n\r\nDATA\r\n"), Some(b"DATA".to_vec()));
    assert_eq!(part_content(b"h: v\r\n\r\nDATA"), Some(b"DATA".to_vec()));
    assert_eq!(part_content(b"h: v\r\n\r\n\r\n"), Some(vec![]));
    assert_eq!(part_content(b"h: v\r\nDATA"), None);
}
