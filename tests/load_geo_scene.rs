use raytracer_lib::load_geo_scene::{
    create_triangles, create_trianglemesh, parse_geo, parse_index_line, GeoError,
};
use raytracer_lib::text::{parse_usize, split_bytes, trim_bytes};

#[derive(Clone, Copy, Debug, PartialEq)]
struct Point3 {
    x: f64,
    y: f64,
    z: f64,
}

#[test]
fn load_geo_scene_dummy() {
    let line = " 4 4 4 4 4 4 4 4 3 3 3 3 3 3 3 3 3 3 3 3 3 3 3 3 ";
    let face_index_array: Vec<usize> = parse_index_line(line.as_bytes()).unwrap();
    for v in &face_index_array {
        println!("Value: {} ", v)
    }
    assert_eq!(face_index_array.len(), 24);
    assert!(face_index_array[..8].iter().all(|&v| v == 4));
    assert!(face_index_array[8..].iter().all(|&v| v == 3));
}

#[test]
fn positiv_create_triangles() {
    let point1 = Point3 { x: -1.0, y: -1.0, z: -5.0 };
    let point2 = Point3 { x: -1.0, y: 1.0, z: -5.0 };
    let point3 = Point3 { x: 1.0, y: 1.0, z: -5.0 };
    let point4 = Point3 { x: 1.0, y: -1.0, z: -5.0 };
    let vertex_array: Vec<Point3> = vec![point1, point2, point3, point4];
    let triangle_index_array: Vec<usize> = vec![0, 1, 2, 0, 2, 3];
    let actual = create_triangles(&vertex_array, &triangle_index_array).unwrap();
    let expected = vec![(point1, point2, point3), (point1, point3, point4)];
    assert_eq!(actual.len(), expected.len());
    for i in 0..actual.len() {
        let (a1, a2, a3) = actual[i];
        let (e1, e2, e3) = expected[i];
        assert!(a1.x == e1.x);
        assert!(a1.y == e1.y);
        assert!(a1.z == e1.z);
        assert!(a2.x == e2.x);
        assert!(a2.y == e2.y);
        assert!(a2.z == e2.z);
        assert!(a3.x == e3.x);
        assert!(a3.y == e3.y);
        assert!(a3.z == e3.z);
    }
}

#[test]
fn create_triangles_rejects_missing_vertex() {
    let vertex_array: Vec<u32> = vec![10, 11, 12];
    assert_eq!(create_triangles(&vertex_array, &vec![0, 1, 3]), None);
    assert_eq!(create_triangles(&vertex_array, &vec![0, 1, 2, 2, 7, 0]), None);
}

#[test]
fn create_triangles_ignores_partial_triangle() {
    let vertex_array: Vec<u32> = vec![10, 11, 12];
    let t = create_triangles(&vertex_array, &vec![2, 1, 0, 9, 9]).unwrap();
    assert_eq!(t, vec![(12, 11, 10)]);
    assert_eq!(create_triangles(&vertex_array, &vec![]).unwrap(), vec![]);
}

#[test]
fn parse_usize_fields() {
    assert_eq!(parse_usize(b"0"), Some(0));
    assert_eq!(parse_usize(b"180"), Some(180));
    assert_eq!(parse_usize(b"+7"), Some(7));
    assert_eq!(parse_usize(b"007"), Some(7));
    assert_eq!(parse_usize(b"18446744073709551615"), Some(usize::MAX));
    assert_eq!(parse_usize(b"18446744073709551616"), None);
    assert_eq!(parse_usize(b""), None);
    assert_eq!(parse_usize(b"+"), None);
    assert_eq!(parse_usize(b"-1"), None);
    assert_eq!(parse_usize(b"1 "), None);
    assert_eq!(parse_usize(b"4x"), None);
}

#[test]
fn trim_and_split() {
    assert_eq!(trim_bytes(b" \t 1 2\r\n"), b"1 2".to_vec());
    assert_eq!(trim_bytes(b"   "), Vec::<u8>::new());
    let unicode = "\u{a0}\u{3000} 4 5\u{85}\u{2009}";
    assert_eq!(trim_bytes(unicode.as_bytes()), unicode.trim().as_bytes().to_vec());
    assert_eq!(trim_bytes(unicode.as_bytes()), b"4 5".to_vec());
    let inner = "\u{2028}x\u{a0}y\u{205f}";
    assert_eq!(trim_bytes(inner.as_bytes()), "x\u{a0}y".as_bytes().to_vec());
    assert_eq!(trim_bytes("\u{e9}".as_bytes()), "\u{e9}".as_bytes().to_vec());
    assert_eq!(
        split_bytes(b"1 2  3", b' '),
        vec![b"1".to_vec(), b"2".to_vec(), Vec::new(), b"3".to_vec()]
    );
    assert_eq!(split_bytes(b"", b' '), vec![Vec::<u8>::new()]);
    assert_eq!(split_bytes(b"a\n", b'\n'), vec![b"a".to_vec(), Vec::new()]);
}

#[test]
fn parse_index_line_rejects_double_space() {
    assert_eq!(parse_index_line(b"1  2"), None);
    assert_eq!(parse_index_line(b""), None);
    assert_eq!(parse_index_line(b" 3 4\t"), Some(vec![3, 4]));
    assert_eq!(parse_index_line("\u{a0}3 4\u{1680}".as_bytes()), Some(vec![3, 4]));
}

const QUAD_AND_TRIANGLE: &str =
    "2\n4 3\n0 1 2 3 4 5 6\n0 0 0 1 0 0 1 1 0 0 1 0 2 2 2 3 2 2 2 3 2\n0 0 1\n";

#[test]
fn parse_geo_reads_all_lines() {
    let g = parse_geo(QUAD_AND_TRIANGLE.as_bytes()).unwrap();
    assert_eq!(g.num_face(), 2);
    assert_eq!(g.face_index_array(), &vec![4, 3]);
    assert_eq!(g.vertex_index_array(), &vec![0, 1, 2, 3, 4, 5, 6]);
    assert_eq!(g.coordinate_fields().len(), 21);
    assert_eq!(g.coordinate_fields()[12], b"2".to_vec());
    assert_eq!(
        g.normal_fields(),
        &vec![b"0".to_vec(), b"0".to_vec(), b"1".to_vec()]
    );
}

#[test]
fn fan_triangulation_of_quad_and_triangle() {
    let g = parse_geo(QUAD_AND_TRIANGLE.as_bytes()).unwrap();
    assert_eq!(create_trianglemesh(&g).unwrap(), vec![0, 1, 2, 0, 2, 3, 4, 5, 6]);
}

#[test]
fn fan_triangulation_of_pentagon() {
    let g = parse_geo(b"1\n5\n9 8 7 6 5\n\n\n").unwrap();
    assert_eq!(create_trianglemesh(&g).unwrap(), vec![9, 8, 7, 9, 7, 6, 9, 6, 5]);
}

#[test]
fn two_vertex_face_gives_no_triangle() {
    let g = parse_geo(b"2\n2 3\n0 1 2 3 4\n\n\n").unwrap();
    assert_eq!(create_trianglemesh(&g).unwrap(), vec![2, 3, 4]);
}

#[test]
fn unused_faces_are_not_read() {
    let g = parse_geo(b"1\n3 1 0\n0 1 2\n\n\n").unwrap();
    assert_eq!(create_trianglemesh(&g).unwrap(), vec![0, 1, 2]);
    let none = parse_geo(b"0\n\n\n\n\n").err();
    assert_eq!(none, Some(GeoError::InvalidFaceSizes));
}

#[test]
fn parse_geo_errors() {
    assert_eq!(parse_geo(b"1\n3\n0 1 2\n0 0 0").err(), Some(GeoError::MissingLines));
    assert_eq!(parse_geo(b"").err(), Some(GeoError::MissingLines));
    assert_eq!(parse_geo(b" 1\n3\n0 1 2\n\n\n").err(), Some(GeoError::InvalidFaceCount));
    assert_eq!(parse_geo(b"1\n3 x\n0 1 2\n\n\n").err(), Some(GeoError::InvalidFaceSizes));
    assert_eq!(parse_geo(b"1\n3\n0 -1 2\n\n\n").err(), Some(GeoError::InvalidVertexIndices));
}

#[test]
fn faces_that_do_not_fit_load_but_do_not_triangulate() {
    let g = parse_geo(b"2\n3\n0 1 2\n0 0 0\n0 0 1").unwrap();
    assert_eq!(g.num_face(), 2);
    assert_eq!(g.face_index_array(), &vec![3]);
    assert_eq!(create_trianglemesh(&g), None);
    let small = parse_geo(b"1\n1\n0 1 2\n\n\n").unwrap();
    assert_eq!(create_trianglemesh(&small), None);
    let short = parse_geo(b"1\n4\n0 1 2\n\n\n").unwrap();
    assert_eq!(create_trianglemesh(&short), None);
}

#[test]
fn zero_faces_are_accepted() {
    let g = parse_geo(b"0\n3\n0\n\n\n").unwrap();
    assert_eq!(create_trianglemesh(&g).unwrap(), Vec::<usize>::new());
}
