use lib_engine::component::obj::{parse_obj_line, ObjLine};

#[test]
fn obj_vertex_line_gives_coordinate_words() {
    let line = "v 1.0 2.5 -3";
    assert_eq!(parse_obj_line(line.as_bytes()), ObjLine::Vertex([(2, 5), (6, 9), (10, 12)]));
    if let ObjLine::Vertex(words) = parse_obj_line(line.as_bytes()) {
        let texts: Vec<&str> = words.iter().map(|&(s, e)| &line[s..e]).collect();
        assert_eq!(texts, vec!["1.0", "2.5", "-3"]);
    }
}

#[test]
fn obj_face_line_is_zero_based() {
    assert_eq!(parse_obj_line(b"f 1 2 3"), ObjLine::Face([0, 1, 2]));
    assert_eq!(parse_obj_line(b"f  4\t5   6  7"), ObjLine::Face([3, 4, 5]));
    assert_eq!(parse_obj_line(b"f 007 10 3\r"), ObjLine::Face([6, 9, 2]));
}

#[test]
fn obj_face_index_limits() {
    assert_eq!(
        parse_obj_line(b"f 18446744073709551615 1 2"),
        ObjLine::Face([usize::MAX - 1, 0, 1])
    );
    assert_eq!(parse_obj_line(b"f 18446744073709551616 1 2"), ObjLine::Malformed);
    assert_eq!(parse_obj_line(b"f 0 1 2"), ObjLine::Malformed);
}

#[test]
fn obj_malformed_lines() {
    assert_eq!(parse_obj_line(b"f 1 2"), ObjLine::Malformed);
    assert_eq!(parse_obj_line(b"v 1.0 2.0"), ObjLine::Malformed);
    assert_eq!(parse_obj_line(b"f 1/1/1 2/2/2 3/3/3"), ObjLine::Malformed);
    assert_eq!(parse_obj_line(b"f -1 2 3"), ObjLine::Malformed);
    assert_eq!(parse_obj_line(b"v"), ObjLine::Malformed);
}

#[test]
fn obj_other_lines() {
    assert_eq!(parse_obj_line(b""), ObjLine::Other);
    assert_eq!(parse_obj_line(b"# a comment"), ObjLine::Other);
    assert_eq!(parse_obj_line(b" v 1 2 3"), ObjLine::Other);
    assert_eq!(parse_obj_line(b"o cube"), ObjLine::Other);
}

#[test]
fn obj_first_byte_decides_the_kind() {
    // a normal line also starts with `v`, so it reads as a vertex
    assert_eq!(parse_obj_line(b"vn 0 0 1"), ObjLine::Vertex([(3, 4), (5, 6), (7, 8)]));
    assert_eq!(parse_obj_line(b"fo 1 2 3 4"), ObjLine::Face([0, 1, 2]));
}
