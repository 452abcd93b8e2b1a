use wavefront_obj_io::{
    number_fields, parse_line, parse_line_with, unknown_prefix_error, Directive, ObjError, ObjLineReader, ParseErrorKind,
    SmoothingGroup,
};

/// Reads `input` line by line, as a reader that rejects unknown directives
/// does, and collects the directives.
fn read_all(input: &str) -> Result<Vec<Directive>, ObjError> {
    let mut reader = ObjLineReader::new();
    let mut out = Vec::new();
    for line in input.split_inclusive('\n') {
        match reader.read_line(line)? {
            None => {}
            Some(Directive::Unknown { prefix, .. }) => {
                return Err(unknown_prefix_error(&prefix, reader.line_number()));
            }
            Some(d) => out.push(d),
        }
    }
    Ok(out)
}

fn num(s: &str) -> f64 {
    s.parse::<f64>().unwrap()
}

fn num32(s: &str) -> f32 {
    s.parse::<f32>().unwrap()
}

fn names(v: &[&str]) -> Vec<String> {
    v.iter().map(|s| s.to_string()).collect()
}

#[test]
fn test_obj_reading_2() {
    let input = "# This is a test OBJ file
o TestObject
v 1 2 3
vt 0.5 0.5
vn 0 1 1.1
f 1/1/1 2/2/2 3/3/3
";
    let d = read_all(input).unwrap();
    assert_eq!(d.len(), 6);
    assert_eq!(d[0], Directive::Comment("This is a test OBJ file".to_string()));
    assert_eq!(d[1], Directive::ObjectName("TestObject".to_string()));
    match &d[2] {
        Directive::Vertex { x, y, z, w } => {
            assert_eq!((num(x), num(y), num(z)), (1.0, 2.0, 3.0));
            assert!(w.is_none());
        }
        other => panic!("not a vertex: {:?}", other),
    }
    match &d[3] {
        Directive::TextureCoordinate { u, v, w } => {
            assert_eq!(num(u), 0.5);
            assert_eq!(v.as_deref().map(num), Some(0.5));
            assert!(w.is_none());
        }
        other => panic!("not a texture coordinate: {:?}", other),
    }
    match &d[4] {
        Directive::Normal { nx, ny, nz } => {
            assert_eq!((num(nx), num(ny), num(nz)), (0.0, 1.0, 1.1));
        }
        other => panic!("not a normal: {:?}", other),
    }
    assert_eq!(
        d[5],
        Directive::Face(vec![
            (1, Some(1), Some(1)),
            (2, Some(2), Some(2)),
            (3, Some(3), Some(3))
        ])
    );
}

#[test]
fn test_obj_f32_reading() {
    let input = "o TestObject
v 1.5 2.5 3.5
vt 0.25 0.75
vn 0.0 1.0 0.0
";
    let d = read_all(input).unwrap();
    match &d[1] {
        Directive::Vertex { x, y, z, w } => {
            assert_eq!((num32(x), num32(y), num32(z)), (1.5f32, 2.5f32, 3.5f32));
            assert!(w.is_none());
        }
        other => panic!("not a vertex: {:?}", other),
    }
    match &d[2] {
        Directive::TextureCoordinate { u, v, w } => {
            assert_eq!(num32(u), 0.25f32);
            assert_eq!(v.as_deref().map(num32), Some(0.75f32));
            assert!(w.is_none());
        }
        other => panic!("not a texture coordinate: {:?}", other),
    }
    match &d[3] {
        Directive::Normal { nx, ny, nz } => {
            assert_eq!((num32(nx), num32(ny), num32(nz)), (0.0f32, 1.0f32, 0.0f32));
        }
        other => panic!("not a normal: {:?}", other),
    }
}

#[test]
fn read_mtllib_and_usemtl() {
    let input = "mtllib first.mtl second.mtl
usemtl SomeMaterial
";
    let d = read_all(input).unwrap();
    assert_eq!(
        d,
        vec![
            Directive::MaterialLib(names(&["first.mtl", "second.mtl"])),
            Directive::UseMaterial("SomeMaterial".to_string()),
        ]
    );
}

#[test]
fn read_group_with_multiple_names() {
    let input = "g cube top
g default
";
    let d = read_all(input).unwrap();
    assert_eq!(
        d,
        vec![
            Directive::Group(names(&["cube", "top"])),
            Directive::Group(names(&["default"])),
        ]
    );
}

#[test]
fn read_smoothing_group_off_zero_and_named() {
    let input = "s off
s 0
s 1
s 42
";
    let d = read_all(input).unwrap();
    assert_eq!(
        d,
        vec![
            Directive::SmoothingGroup(SmoothingGroup::Off),
            Directive::SmoothingGroup(SmoothingGroup::Off),
            Directive::SmoothingGroup(SmoothingGroup::Group(1)),
            Directive::SmoothingGroup(SmoothingGroup::Group(42)),
        ]
    );
}

#[test]
fn read_smoothing_group_invalid_value_errors() {
    let input = "s notanumber\n";
    let err = read_all(input).unwrap_err();
    assert!(
        err.message().contains("invalid smoothing group"),
        "got: {}",
        err.message()
    );
}

#[test]
fn read_line_and_point_elements() {
    let input = "l 1 2 3
l 4/1 5/2 6/3
p 1 2 3 4
";
    let d = read_all(input).unwrap();
    assert_eq!(
        d,
        vec![
            Directive::LineElement(vec![(1, None), (2, None), (3, None)]),
            Directive::LineElement(vec![(4, Some(1)), (5, Some(2)), (6, Some(3))]),
            Directive::PointElement(vec![1, 2, 3, 4]),
        ]
    );
}

#[test]
fn read_line_element_with_one_vertex_errors() {
    let err = read_all("l 1\n").unwrap_err();
    assert!(
        err.message().contains("at least 2 vertices"),
        "got: {}",
        err.message()
    );
}

#[test]
fn unknown_prefix_still_errors_by_default() {
    let input = "vp 0.1 0.2 0.3\n";
    let err = read_all(input).unwrap_err();
    assert!(
        err.message().contains("Unknown line prefix: vp"),
        "got: {}",
        err.message()
    );
}

#[test]
fn typed_error_unknown_prefix_carries_prefix_and_line() {
    let input = "v 0 0 0\nvp 0.1 0.2\n";
    let err = read_all(input).unwrap_err();
    match err {
        ObjError::Parse {
            line,
            kind: ParseErrorKind::UnknownPrefix(prefix),
        } => {
            assert_eq!(line, 2);
            assert_eq!(prefix, "vp");
        }
        other => panic!("wrong error variant: {:?}", other),
    }
}

#[test]
fn typed_error_invalid_number_carries_field_and_value() {
    let input = "v 1.0 nope 3.0\n";
    let err = read_all(input).unwrap_err();
    match err {
        ObjError::Parse {
            line: 1,
            kind: ParseErrorKind::InvalidNumber { field, value },
        } => {
            assert_eq!(field, "vertex y");
            assert_eq!(value, "nope");
        }
        other => panic!("wrong error variant: {:?}", other),
    }
}

#[test]
fn typed_error_invalid_index_for_face() {
    let input = "v 0 0 0\nf 0/0/0 0/0/0 0/0/0\n";
    let err = read_all(input).unwrap_err();
    match err {
        ObjError::Parse {
            line: 2,
            kind: ParseErrorKind::InvalidIndex { kind, value },
        } => {
            assert_eq!(kind, "vertex");
            assert_eq!(value, "0");
        }
        other => panic!("wrong error variant: {:?}", other),
    }
}

#[test]
fn typed_error_invalid_smoothing_group() {
    let input = "s notanumber\n";
    let err = read_all(input).unwrap_err();
    match err {
        ObjError::Parse {
            line: 1,
            kind: ParseErrorKind::InvalidSmoothingGroup(value),
        } => assert_eq!(value, "notanumber"),
        other => panic!("wrong error variant: {:?}", other),
    }
}

#[test]
fn typed_error_missing_field() {
    let input = "v 1.0 2.0\n";
    let err = read_all(input).unwrap_err();
    match err {
        ObjError::Parse {
            line: 1,
            kind: ParseErrorKind::MissingField(field),
        } => assert_eq!(field, "vertex z"),
        other => panic!("wrong error variant: {:?}", other),
    }
}

#[test]
fn custom_read_unknown_can_return_objerror() {
    // A reader that surfaces unknown prefixes as Custom errors.
    let mut reader = ObjLineReader::new();
    let err = match reader.read_line("vp 0 0\n") {
        Ok(Some(Directive::Unknown { prefix, .. })) => ObjError::Parse {
            line: reader.line_number(),
            kind: ParseErrorKind::Custom(format!("nope: {prefix}")),
        },
        other => panic!("not an unknown directive: {:?}", other),
    };
    match err {
        ObjError::Parse {
            line: 1,
            kind: ParseErrorKind::Custom(msg),
        } => assert_eq!(msg, "nope: vp"),
        other => panic!("wrong error variant: {:?}", other),
    }
}

#[test]
fn blank_and_whitespace_lines_read_as_nothing() {
    for line in ["", "\n", "   \t  \r\n", "\u{a0}\u{3000}\n"] {
        assert_eq!(parse_line(line), Ok(None), "line {:?}", line);
    }
    let mut reader = ObjLineReader::new();
    assert!(reader.read_line("\n").unwrap().is_none());
    assert!(reader.read_line("  \n").unwrap().is_none());
    assert_eq!(reader.line_number(), 2);
    match reader.read_line("l 1\n") {
        Err(ObjError::Parse { line: 3, kind: ParseErrorKind::LineElementTooShort }) => {}
        other => panic!("unexpected: {:?}", other),
    }
}

#[test]
fn words_are_split_on_any_unicode_whitespace() {
    assert_eq!(
        parse_line("\tg\u{2003}a \u{a0} b\r\n"),
        Ok(Some(Directive::Group(names(&["a", "b"]))))
    );
    assert_eq!(
        parse_line("#   several   spaces\there  "),
        Ok(Some(Directive::Comment("several spaces here".to_string())))
    );
    assert_eq!(parse_line("#"), Ok(Some(Directive::Comment(String::new()))));
    assert_eq!(parse_line("o"), Ok(Some(Directive::ObjectName(String::new()))));
}

#[test]
fn number_syntax_follows_float_parsing() {
    for ok in ["1", "-1", "+1.5", ".5", "5.", "1e10", "1E-3", "2.5e+7", "inf", "-Infinity", "NaN", "+nan"] {
        assert!(ok.parse::<f64>().is_ok(), "{}", ok);
        let line = format!("v {ok} 0 0");
        assert!(matches!(parse_line(&line), Ok(Some(Directive::Vertex { .. }))), "{}", ok);
    }
    for bad in [".", "e5", "1e", "1.2.3", "--1", "1_0", "0x10", "in", "infinit", "1e+", "+"] {
        assert!(bad.parse::<f64>().is_err(), "{}", bad);
        let line = format!("v {bad} 0 0");
        match parse_line(&line) {
            Err(ParseErrorKind::InvalidNumber { field, value }) => {
                assert_eq!(field, "vertex x");
                assert_eq!(value, bad);
            }
            other => panic!("{}: {:?}", bad, other),
        }
    }
}

#[test]
fn vertex_fields_are_checked_in_order() {
    assert_eq!(
        parse_line("v nope"),
        Err(ParseErrorKind::InvalidNumber { field: "vertex x", value: "nope".to_string() })
    );
    assert_eq!(parse_line("v"), Err(ParseErrorKind::MissingField("vertex x")));
    assert_eq!(
        parse_line("v 1 2 3 x"),
        Err(ParseErrorKind::InvalidNumber { field: "vertex w", value: "x".to_string() })
    );
    assert_eq!(
        parse_line("v 1 2 3 4 extra words"),
        Ok(Some(Directive::Vertex {
            x: "1".to_string(),
            y: "2".to_string(),
            z: "3".to_string(),
            w: Some("4".to_string())
        }))
    );
    assert_eq!(parse_line("vt"), Err(ParseErrorKind::MissingField("texture u")));
    assert_eq!(
        parse_line("vt 1 2 q"),
        Err(ParseErrorKind::InvalidNumber { field: "texture w", value: "q".to_string() })
    );
    assert_eq!(parse_line("vn 1 2"), Err(ParseErrorKind::MissingField("normal nz")));
}

#[test]
fn face_vertex_forms() {
    assert_eq!(
        parse_line("f 1 2//3 4/5 6/7/8 +9"),
        Ok(Some(Directive::Face(vec![
            (1, None, None),
            (2, None, Some(3)),
            (4, Some(5), None),
            (6, Some(7), Some(8)),
            (9, None, None),
        ])))
    );
    assert_eq!(parse_line("f"), Ok(Some(Directive::Face(vec![]))));
    assert_eq!(parse_line("f 1/"), Ok(Some(Directive::Face(vec![(1, None, None)]))));
    assert_eq!(
        parse_line("f 1/2/3/4"),
        Err(ParseErrorKind::InvalidIndex { kind: "normal", value: "3/4".to_string() })
    );
    assert_eq!(
        parse_line("f 1 -2"),
        Err(ParseErrorKind::InvalidIndex { kind: "vertex", value: "-2".to_string() })
    );
    assert_eq!(
        parse_line("f 1/x"),
        Err(ParseErrorKind::InvalidIndex { kind: "texcoord", value: "x".to_string() })
    );
    assert_eq!(
        parse_line("f 99999999999999999999999"),
        Err(ParseErrorKind::InvalidIndex {
            kind: "vertex",
            value: "99999999999999999999999".to_string()
        })
    );
}

#[test]
fn line_and_point_element_errors() {
    assert_eq!(parse_line("l"), Err(ParseErrorKind::LineElementTooShort));
    assert_eq!(
        parse_line("l 1/2/3 4"),
        Err(ParseErrorKind::InvalidIndex { kind: "texcoord", value: "2/3".to_string() })
    );
    assert_eq!(
        parse_line("l 1/ 2"),
        Ok(Some(Directive::LineElement(vec![(1, None), (2, None)])))
    );
    assert_eq!(parse_line("p"), Err(ParseErrorKind::PointElementEmpty));
    assert_eq!(
        parse_line("p 0 1"),
        Err(ParseErrorKind::InvalidIndex { kind: "vertex", value: "0".to_string() })
    );
}

#[test]
fn smoothing_group_values() {
    assert_eq!(
        parse_line("s OFF"),
        Ok(Some(Directive::SmoothingGroup(SmoothingGroup::Off)))
    );
    assert_eq!(
        parse_line("s 4294967295"),
        Ok(Some(Directive::SmoothingGroup(SmoothingGroup::Group(4294967295))))
    );
    assert_eq!(
        parse_line("s 4294967296"),
        Err(ParseErrorKind::InvalidSmoothingGroup("4294967296".to_string()))
    );
    assert_eq!(parse_line("s"), Err(ParseErrorKind::MissingField("smoothing group value")));
}

#[test]
fn unknown_directive_keeps_its_words() {
    assert_eq!(
        parse_line("curv2  1 2   3"),
        Ok(Some(Directive::Unknown { prefix: "curv2".to_string(), rest: "1 2 3".to_string() }))
    );
}

#[test]
fn error_messages() {
    let cases = vec![
        (ParseErrorKind::EmptyPrefix, "empty prefix"),
        (ParseErrorKind::UnknownPrefix("vp".to_string()), "Unknown line prefix: vp"),
        (ParseErrorKind::MissingField("vertex z"), "missing vertex z"),
        (
            ParseErrorKind::InvalidNumber { field: "vertex y", value: "nope".to_string() },
            "invalid vertex y: nope",
        ),
        (
            ParseErrorKind::InvalidIndex { kind: "vertex", value: "0".to_string() },
            "invalid vertex index: 0",
        ),
        (
            ParseErrorKind::InvalidSmoothingGroup("x".to_string()),
            "invalid smoothing group: x (expected integer or 'off')",
        ),
        (ParseErrorKind::LineElementTooShort, "line element needs at least 2 vertices"),
        (ParseErrorKind::PointElementEmpty, "point element needs at least 1 vertex"),
        (ParseErrorKind::Custom("free text".to_string()), "free text"),
    ];
    for (kind, text) in cases {
        assert_eq!(kind.message(), text);
    }
    let e = ObjError::Parse { line: 1234, kind: ParseErrorKind::LineElementTooShort };
    assert_eq!(e.message(), "line 1234: line element needs at least 2 vertices");
    let io = ObjError::from(std::io::Error::other("disk on fire"));
    assert_eq!(io.message(), "I/O error: disk on fire");
}

#[test]
fn number_fields_are_the_texts_read_as_numbers() {
    assert_eq!(number_fields("v 1 2 3 4 5\n"), vec!["1", "2", "3", "4"]);
    assert_eq!(number_fields("  vt 0.5\n"), vec!["0.5"]);
    assert_eq!(number_fields("vn a b c d"), vec!["a", "b", "c"]);
    assert!(number_fields("f 1 2 3").is_empty());
    assert!(number_fields("   \n").is_empty());
}

#[test]
fn a_float_type_of_its_own_decides_which_numbers_read() {
    // A float type that parses "half" but not "2": the reader follows it.
    assert_eq!(
        parse_line_with("v half 2 3\n", &[true, false, true]),
        Err(ParseErrorKind::InvalidNumber { field: "vertex y", value: "2".to_string() })
    );
    assert_eq!(
        parse_line_with("v half 1 1", &[true, true, true]),
        Ok(Some(Directive::Vertex {
            x: "half".to_string(),
            y: "1".to_string(),
            z: "1".to_string(),
            w: None
        }))
    );
    // A rejected number comes before a missing one, as the fields are read in order.
    assert_eq!(
        parse_line_with("vn nope", &[false]),
        Err(ParseErrorKind::InvalidNumber { field: "normal nx", value: "nope".to_string() })
    );
    // Lines without numbers read as `parse_line` reads them.
    assert_eq!(parse_line_with("f 1 2 3", &[]), parse_line("f 1 2 3"));
}

#[test]
fn read_line_with_numbers_the_lines() {
    let mut reader = ObjLineReader::new();
    assert_eq!(reader.read_line_with("\n", &[]).unwrap(), None);
    match reader.read_line_with("vt x\n", &[false]) {
        Err(ObjError::Parse { line, kind }) => {
            assert_eq!(line, 2);
            assert_eq!(
                kind,
                ParseErrorKind::InvalidNumber { field: "texture u", value: "x".to_string() }
            );
        }
        other => panic!("wrong result: {:?}", other),
    }
    assert_eq!(reader.line_number(), 2);
}
