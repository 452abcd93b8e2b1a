use wavefront_obj_io::{
    comment_line, face_line, group_line, line_element_line, material_lib_line, normal_line,
    object_name_line, parse_line, point_element_line, smoothing_group_line,
    texture_coordinate_line, use_material_line, vertex_line, Directive, ObjLineReader,
    SmoothingGroup,
};

/// Reads each line of `text` back into its directive.
fn read_back(text: &str) -> Vec<Directive> {
    let mut reader = ObjLineReader::new();
    let mut out = Vec::new();
    for line in text.split_inclusive('\n') {
        if let Some(d) = reader.read_line(line).unwrap() {
            out.push(d);
        }
    }
    out
}

fn strings(v: &[&str]) -> Vec<String> {
    v.iter().map(|s| s.to_string()).collect()
}

#[test]
fn write_directive_round_trip() {
    let mut text = String::new();
    for line in [
        material_lib_line(&["lib1.mtl", "lib2.mtl"]),
        use_material_line("Wood"),
        group_line(&["cube", "top"]),
        smoothing_group_line(SmoothingGroup::Off),
        smoothing_group_line(SmoothingGroup::Group(7)),
        line_element_line(&[(1, None), (2, Some(2)), (3, None)]),
        point_element_line(&[1, 2, 3]),
    ] {
        text.push_str(&line);
        text.push('\n');
    }
    let expected = "mtllib lib1.mtl lib2.mtl
usemtl Wood
g cube top
s off
s 7
l 1 2/2 3
p 1 2 3
";
    assert_eq!(text, expected);

    let d = read_back(&text);
    assert_eq!(
        d,
        vec![
            Directive::MaterialLib(strings(&["lib1.mtl", "lib2.mtl"])),
            Directive::UseMaterial("Wood".to_string()),
            Directive::Group(strings(&["cube", "top"])),
            Directive::SmoothingGroup(SmoothingGroup::Off),
            Directive::SmoothingGroup(SmoothingGroup::Group(7)),
            Directive::LineElement(vec![(1, None), (2, Some(2)), (3, None)]),
            Directive::PointElement(vec![1, 2, 3]),
        ]
    );
}

#[test]
fn geometry_lines_have_the_expected_text() {
    assert_eq!(comment_line("Test OBJ file"), "# Test OBJ file");
    assert_eq!(object_name_line("Cube"), "o Cube");
    assert_eq!(vertex_line("1", "2", "3", None), "v 1 2 3");
    assert_eq!(vertex_line("1.5", "-2", "0.25", Some("1")), "v 1.5 -2 0.25 1");
    assert_eq!(texture_coordinate_line("0.5", None, None), "vt 0.5");
    assert_eq!(texture_coordinate_line("0.5", Some("0.25"), None), "vt 0.5 0.25");
    assert_eq!(
        texture_coordinate_line("0.5", Some("0.25"), Some("1")),
        "vt 0.5 0.25 1"
    );
    // `w` is written only after `v`.
    assert_eq!(texture_coordinate_line("0.5", None, Some("1")), "vt 0.5");
    assert_eq!(normal_line("0", "1", "1.1"), "vn 0 1 1.1");
}

#[test]
fn face_line_writes_each_vertex_form() {
    assert_eq!(
        face_line(&[(1, None, None), (2, Some(3), None), (4, None, Some(5)), (6, Some(7), Some(8))]),
        "f 1 2/3 4//5 6/7/8"
    );
    assert_eq!(face_line(&[]), "f");
    assert_eq!(face_line(&[(123, None, Some(45))]), "f 123//45");
}

#[test]
fn indices_are_written_in_decimal() {
    assert_eq!(point_element_line(&[10, 200, 3000]), "p 10 200 3000");
    assert_eq!(
        point_element_line(&[usize::MAX]),
        format!("p {}", usize::MAX)
    );
    assert_eq!(
        smoothing_group_line(SmoothingGroup::Group(u32::MAX)),
        "s 4294967295"
    );
    assert_eq!(line_element_line(&[(90, Some(1)), (7, None)]), "l 90/1 7");
}

#[test]
fn name_lists_are_joined_by_single_spaces() {
    assert_eq!(material_lib_line(&[]), "mtllib");
    assert_eq!(group_line(&["a"]), "g a");
    assert_eq!(group_line(&["a", "b", "c"]), "g a b c");
}

#[test]
fn written_geometry_reads_back_unchanged() {
    let lines = [
        comment_line("hello world"),
        object_name_line("My Object"),
        vertex_line("1", "2.5", "-3e2", Some("1")),
        texture_coordinate_line("0.5", Some("0.25"), None),
        normal_line("0", "1", "0"),
        face_line(&[(1, Some(1), Some(1)), (2, None, Some(2)), (3, Some(3), None)]),
    ];
    let mut text = String::new();
    for line in &lines {
        text.push_str(line);
        text.push('\n');
    }
    let d = read_back(&text);
    assert_eq!(
        d,
        vec![
            Directive::Comment("hello world".to_string()),
            Directive::ObjectName("My Object".to_string()),
            Directive::Vertex {
                x: "1".to_string(),
                y: "2.5".to_string(),
                z: "-3e2".to_string(),
                w: Some("1".to_string())
            },
            Directive::TextureCoordinate {
                u: "0.5".to_string(),
                v: Some("0.25".to_string()),
                w: None
            },
            Directive::Normal {
                nx: "0".to_string(),
                ny: "1".to_string(),
                nz: "0".to_string()
            },
            Directive::Face(vec![(1, Some(1), Some(1)), (2, None, Some(2)), (3, Some(3), None)]),
        ]
    );
}

#[test]
fn a_read_line_written_again_is_the_same_line() {
    // Reading normalises spacing; writing what was read gives the normal form,
    // and reading that again gives the same directive.
    let d = parse_line("  f   1/2/3\t4//5  6 \n").unwrap().unwrap();
    let written = match &d {
        Directive::Face(v) => face_line(v),
        other => panic!("not a face: {:?}", other),
    };
    assert_eq!(written, "f 1/2/3 4//5 6");
    assert_eq!(parse_line(&written).unwrap().unwrap(), d);
}

#[test]
fn smoothing_group_zero_is_written_as_a_number_and_reads_as_off() {
    // `s 0` and `s off` both disable smoothing, so group 0 does not come back as itself.
    let line = smoothing_group_line(SmoothingGroup::Group(0));
    assert_eq!(line, "s 0");
    assert_eq!(
        parse_line(&line).unwrap(),
        Some(Directive::SmoothingGroup(SmoothingGroup::Off))
    );
}
