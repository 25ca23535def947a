use trajan::coordinate::{CoordKind, Coordinate};
use trajan::error::ErrorKind;
use trajan::particle::{Attribute, Particle};
use trajan::snapshot::Snapshot;
use trajan::xyz::{XYZParticle, XYZReader, XYZSnapshot, XYZWriter};

fn parse_f64(s: &str) -> Option<f64> {
    s.parse::<f64>().ok()
}

fn fmt_f64(v: &f64) -> String {
    format!("{:.16}", v)
}

#[test]
fn particle_from_line() {
    let p: XYZParticle<f64> =
        XYZParticle::from_line("H 1.00 1.00 1.00", CoordKind::Position, &parse_f64).unwrap();
    assert_eq!(p.name, "H");
    assert_eq!(p.xyz, Coordinate::build(CoordKind::Position, 1.0, 1.0, 1.0));
}

#[test]
fn malformed_line_too_few_tokens() {
    let r = XYZParticle::<f64>::from_line("H 1.0 2.0", CoordKind::Position, &parse_f64);
    match r.unwrap_err().kind() {
        ErrorKind::InvalidFormat { error } => assert_eq!(error, "H 1.0 2.0"),
        other => panic!("expected InvalidFormat, got {:?}", other),
    }
}

#[test]
fn malformed_line_too_many_tokens() {
    let r = XYZParticle::<f64>::from_line("H 1.0 2.0 3.0 4.0", CoordKind::Position, &parse_f64);
    match r.unwrap_err().kind() {
        ErrorKind::InvalidFormat { error } => assert_eq!(error, "H 1.0 2.0 3.0 4.0"),
        other => panic!("expected InvalidFormat, got {:?}", other),
    }
}

#[test]
fn non_numeric_field_is_parse_error() {
    let r = XYZParticle::<f64>::from_line("H a 2.0 3.0", CoordKind::Position, &parse_f64);
    assert_eq!(*r.unwrap_err().kind(), ErrorKind::ParseError);
}

#[test]
fn coordinate_tag_stability() {
    let p: XYZParticle<f64> =
        XYZParticle::from_line("H 1.0 2.0 3.0", CoordKind::Velocity, &parse_f64).unwrap();
    assert_eq!(p.vel(), Some((1.0, 2.0, 3.0)));
    assert_eq!(p.pos(), None);
    assert_eq!(p.force(), None);
}

#[test]
fn particle_attributes() {
    let p: XYZParticle<f64> =
        XYZParticle::from_line("Na 1.0 2.0 3.0", CoordKind::Position, &parse_f64).unwrap();
    assert_eq!(p.mass(), None);
    assert_eq!(p.attribute("name"), Some(Attribute::Text("Na".to_string())));
    assert_eq!(p.attribute("charge"), None);
}

#[test]
fn read_one_snapshot() {
    let text = "2\na comment\nH 1.0 2.0 3.0\nO 4.0 5.0 6.0\n".to_string();
    let mut reader = XYZReader::new(CoordKind::Position, text, parse_f64);
    let ss = reader.read_snapshot().unwrap();
    assert_eq!(ss.comment, "a comment");
    assert_eq!(ss.particles.len(), 2);
    assert_eq!(ss.particles[0].name, "H");
    assert_eq!(ss.particles[1].name, "O");
    assert_eq!(*ss.particles[1].xyz.x(), 4.0);
    assert_eq!(ss.which(), Some(CoordKind::Position));
    // the stream is exhausted: the next read fails
    assert_eq!(*reader.read_snapshot().unwrap_err().kind(), ErrorKind::Io);
}

#[test]
fn read_empty_snapshot() {
    let text = "0\nnothing here\n".to_string();
    let mut reader = XYZReader::new(CoordKind::Position, text, parse_f64);
    let ss = reader.read_snapshot().unwrap();
    assert_eq!(ss.comment, "nothing here");
    assert_eq!(ss.particles.len(), 0);
    assert_eq!(ss.which(), None);
}

#[test]
fn header_not_a_count() {
    let text = "two\nc\nH 1.0 2.0 3.0\n".to_string();
    let mut reader = XYZReader::<f64, _>::new(CoordKind::Position, text, parse_f64);
    match reader.read_snapshot().unwrap_err().kind() {
        ErrorKind::InvalidFormat { error } => assert_eq!(error, "two"),
        other => panic!("expected InvalidFormat, got {:?}", other),
    }
}

#[test]
fn header_too_large_is_parse_error() {
    let text = "99999999999999999999999999\nc\n".to_string();
    let mut reader = XYZReader::<f64, _>::new(CoordKind::Position, text, parse_f64);
    assert_eq!(*reader.read_snapshot().unwrap_err().kind(), ErrorKind::ParseError);
}

#[test]
fn header_mismatch_short_frame() {
    // the header declares three particles but only two lines remain: the read
    // fails with an end-of-stream error, never with a short snapshot
    let text = "3\nc\nH 1.0 2.0 3.0\nO 4.0 5.0 6.0\n".to_string();
    let mut reader = XYZReader::new(CoordKind::Position, text, parse_f64);
    let r: Result<XYZSnapshot<f64>, _> = reader.read_snapshot();
    assert_eq!(*r.unwrap_err().kind(), ErrorKind::Io);
}

#[test]
fn header_consumes_exactly_n_lines() {
    // a count smaller than the frame's lines consumes exactly that many
    // lines; the line left over is the next frame's header
    let text = "1\nfirst\nH 1.0 2.0 3.0\n2\nsecond\nO 1.0 1.0 1.0\nN 2.0 2.0 2.0\n".to_string();
    let mut reader = XYZReader::new(CoordKind::Position, text, parse_f64);
    let a = reader.read_snapshot().unwrap();
    assert_eq!(a.comment, "first");
    assert_eq!(a.particles.len(), 1);
    let b = reader.read_snapshot().unwrap();
    assert_eq!(b.comment, "second");
    assert_eq!(b.particles.len(), 2);
    assert_eq!(b.particles[1].name, "N");
}

#[test]
fn sequence_stops_at_malformed_frame() {
    // two well-formed frames, then a malformed third: driving the reader as a
    // sequence yields exactly two snapshots and then stops
    let text = "1\none\nH 1.0 2.0 3.0\n1\ntwo\nO 4.0 5.0 6.0\n1\nthree\nbroken line\n".to_string();
    let mut reader = XYZReader::new(CoordKind::Position, text, parse_f64);
    let mut frames: Vec<XYZSnapshot<f64>> = Vec::new();
    while let Ok(ss) = reader.read_snapshot() {
        frames.push(ss);
    }
    assert_eq!(frames.len(), 2);
    assert_eq!(frames[0].comment, "one");
    assert_eq!(frames[1].comment, "two");
}

#[test]
fn reader_accepts_extra_whitespace() {
    let text = "  1 \nc\n  H\t1.0   2.0\t\t3.0  \n".to_string();
    let mut reader = XYZReader::new(CoordKind::Position, text, parse_f64);
    let ss = reader.read_snapshot().unwrap();
    assert_eq!(ss.particles.len(), 1);
    assert_eq!(ss.particles[0].name, "H");
    assert_eq!(*ss.particles[0].xyz.z(), 3.0);
}

#[test]
fn writer_fixed_columns() {
    let particles = vec![
        XYZParticle::new("H".to_string(), Coordinate::build(CoordKind::Position, 1.5, -2.25, 3.0)),
        XYZParticle::new(
            "Na".to_string(),
            Coordinate::build(CoordKind::Position, 0.5, 0.5, 0.5),
        ),
    ];
    let ss = XYZSnapshot::new("water?".to_string(), particles);
    let mut writer = XYZWriter::new();
    writer.write_snapshot(&ss, &fmt_f64).unwrap();
    let expected = "2\nwater?\nH        1.5000000000000000 -2.2500000000000000 3.0000000000000000\nNa       0.5000000000000000 0.5000000000000000 0.5000000000000000\n";
    assert_eq!(writer.output(), expected);
}

#[test]
fn writer_long_name_not_truncated() {
    let particles = vec![XYZParticle::new(
        "Methionine".to_string(),
        Coordinate::build(CoordKind::Force, 1.0, 1.0, 1.0),
    )];
    let ss = XYZSnapshot::new("c".to_string(), particles);
    let mut writer = XYZWriter::new();
    writer.write_snapshot(&ss, &fmt_f64).unwrap();
    let expected =
        "1\nc\nMethionine 1.0000000000000000 1.0000000000000000 1.0000000000000000\n";
    assert_eq!(writer.output(), expected);
}

#[test]
fn round_trip() {
    let particles = vec![
        XYZParticle::new(
            "H".to_string(),
            Coordinate::build(CoordKind::Velocity, 1.5, -2.25, 0.0078125),
        ),
        XYZParticle::new(
            "O".to_string(),
            Coordinate::build(CoordKind::Velocity, -1024.0, 3.5, 42.0),
        ),
    ];
    let ss = XYZSnapshot::new("a round trip".to_string(), particles);
    let mut writer = XYZWriter::new();
    writer.write_snapshot(&ss, &fmt_f64).unwrap();
    writer.write_snapshot(&ss, &fmt_f64).unwrap();
    let mut reader = XYZReader::new(CoordKind::Velocity, writer.into_output(), parse_f64);
    for _ in 0..2 {
        let back = reader.read_snapshot().unwrap();
        assert_eq!(back.comment, ss.comment);
        assert_eq!(back.particles.len(), ss.particles.len());
        for (a, b) in back.particles.iter().zip(ss.particles.iter()) {
            assert_eq!(a.name, b.name);
            assert_eq!(a.xyz, b.xyz);
        }
    }
    assert!(reader.read_snapshot().is_err());
}

#[test]
fn snapshot_columns_all_or_nothing() {
    let text = "2\nc\nH 1.0 2.0 3.0\nO 4.0 5.0 6.0\n".to_string();
    let mut reader = XYZReader::new(CoordKind::Velocity, text, parse_f64);
    let ss = reader.read_snapshot().unwrap();
    assert_eq!(ss.len(), 2);
    assert_eq!(ss.velocities(), Some(vec![(1.0, 2.0, 3.0), (4.0, 5.0, 6.0)]));
    assert_eq!(ss.positions(), None);
    assert_eq!(ss.forces(), None);
    assert_eq!(ss.masses(), None);
    assert_eq!(
        ss.attributes("name"),
        Some(vec![
            Attribute::Text("H".to_string()),
            Attribute::Text("O".to_string()),
        ])
    );
    assert_eq!(ss.attributes("charge"), None);
}

#[test]
fn empty_snapshot_columns() {
    let empty: XYZSnapshot<f64> = XYZSnapshot::new("c".to_string(), Vec::new());
    assert_eq!(empty.len(), 0);
    assert_eq!(empty.masses(), Some(Vec::new()));
    assert_eq!(empty.positions(), Some(Vec::new()));
}

#[test]
fn reader_kind_is_fixed_at_construction() {
    let text = "1\nc\nH 1.0 2.0 3.0\n".to_string();
    let mut reader = XYZReader::new(CoordKind::Force, text, parse_f64);
    assert_eq!(reader.which_kind(), CoordKind::Force);
    let ss = reader.read_snapshot().unwrap();
    assert_eq!(ss.which(), Some(CoordKind::Force));
    assert_eq!(ss.particles[0].force(), Some((1.0, 2.0, 3.0)));
}

#[test]
fn read_f32_precision() {
    let text = "1\nc\nH 0.25 -0.5 12.125\n".to_string();
    let mut reader = XYZReader::new(CoordKind::Position, text, |s: &str| s.parse::<f32>().ok());
    let ss = reader.read_snapshot().unwrap();
    assert_eq!(ss.particles[0].pos(), Some((0.25f32, -0.5f32, 12.125f32)));
}

#[test]
fn reader_accepts_crlf_lines() {
    let text = "1\r\ncarriage\r\nH 1.0 2.0 3.0\r\n".to_string();
    let mut reader = XYZReader::new(CoordKind::Position, text, parse_f64);
    let ss = reader.read_snapshot().unwrap();
    assert_eq!(ss.comment, "carriage");
    assert_eq!(ss.particles[0].name, "H");
    assert_eq!(*ss.particles[0].xyz.y(), 2.0);
}

#[test]
fn header_with_plus_sign() {
    let text = "+1\nc\nH 1.0 2.0 3.0\n".to_string();
    let mut reader = XYZReader::new(CoordKind::Position, text, parse_f64);
    assert_eq!(reader.read_snapshot().unwrap().particles.len(), 1);
}

#[test]
fn parse_error_mid_frame() {
    // the second line of the frame has four tokens but a non-numeric field
    let text = "2\nc\nH 1.0 2.0 3.0\nO x 5.0 6.0\n".to_string();
    let mut reader = XYZReader::new(CoordKind::Position, text, parse_f64);
    assert_eq!(*reader.read_snapshot().unwrap_err().kind(), ErrorKind::ParseError);
}
