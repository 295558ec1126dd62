use kalimorfia::cnc::location::Location;
use kalimorfia::cnc::mill::{CutterShape, MillShape, MillType};
use kalimorfia::cnc::number::Number;
use kalimorfia::cnc::parser::{
    bare_move_line, parse_clean_numbered_instruction, parse_instruction, parse_prefix_number,
    parse_source, source_reaches_bare_move, LineParseError, ParseError,
};
use kalimorfia::cnc::program::{
    CoordinateSystemType, Instruction, MillInstruction, Program, ProgramLine, ProgramLoadError,
    UnitSystem, Winding,
};

fn chars(s: &str) -> Vec<char> {
    s.chars().collect()
}

fn num(is_negative: bool, integral_part: u32, fractional_part: u32) -> Number {
    Number { is_negative, integral_part, fractional_part }
}

#[test]
fn number_prefix_reads_sign_integral_and_thousandths() {
    let (n, rest) = Number::from_str_prefix("-12.345Y1.000").unwrap();
    assert_eq!(n, num(true, 12, 345));
    assert_eq!(rest, "Y1.000");
    let (n, rest) = Number::from_str_prefix("7.050").unwrap();
    assert_eq!(n, num(false, 7, 50));
    assert_eq!(rest, "");
}

#[test]
fn number_prefix_accepts_what_u32_parse_accepts() {
    assert_eq!(Number::from_str_prefix("+3.000").unwrap().0, num(false, 3, 0));
    assert_eq!(Number::from_str_prefix("-+3.000").unwrap().0, num(true, 3, 0));
    assert_eq!(Number::from_str_prefix("007.001").unwrap().0, num(false, 7, 1));
    assert_eq!(Number::from_str_prefix("4294967295.999").unwrap().0, num(false, u32::MAX, 999));
    assert!(Number::from_str_prefix("4294967296.000").is_none());
}

#[test]
fn number_prefix_rejects_malformed_numbers() {
    assert!(Number::from_str_prefix("12").is_none());
    assert!(Number::from_str_prefix(".123").is_none());
    assert!(Number::from_str_prefix("1.12").is_none());
    assert!(Number::from_str_prefix("1.1a3").is_none());
    assert!(Number::from_str_prefix("-.123").is_none());
    assert!(Number::from_str_prefix("--1.123").is_none());
    assert!(Number::from_str_prefix("1x.123").is_none());
    assert!(Number::from_str_prefix("+.123").is_none());
}

#[test]
fn number_parse_str_needs_nothing_after() {
    assert_eq!(Number::parse_str("1.500"), Ok(num(false, 1, 500)));
    assert_eq!(Number::parse_str("1.5000"), Err(()));
    assert_eq!("2.250".parse::<Number>(), Ok(num(false, 2, 250)));
}

#[test]
fn location_reads_axes_in_any_order() {
    let l = Location::parse_str("X1.000Y-2.500Z3.250").unwrap();
    assert_eq!(l.x, Some(num(false, 1, 0)));
    assert_eq!(l.y, Some(num(true, 2, 500)));
    assert_eq!(l.z, Some(num(false, 3, 250)));
    let m = Location::parse_str("Z3.250X1.000Y-2.500").unwrap();
    assert_eq!(l, m);
    let only_z = Location::parse_str("Z0.010").unwrap();
    assert_eq!(only_z, Location { x: None, y: None, z: Some(num(false, 0, 10)) });
}

#[test]
fn location_rejects_repeated_axes_and_junk() {
    assert_eq!(Location::parse_str("X1.000X2.000"), Err(()));
    assert_eq!(Location::parse_str("X1.000Y1.000Z1.000X1.000"), Err(()));
    assert_eq!(Location::parse_str("A1.000"), Err(()));
    assert_eq!(Location::parse_str("X1.000 "), Err(()));
    assert_eq!(Location::parse_str("X1"), Err(()));
    assert_eq!(Location::default(), Location { x: None, y: None, z: None });
}

#[test]
fn prefix_number_counts_digits() {
    assert_eq!(parse_prefix_number(&chars("123G01")), Some((123, 3)));
    assert_eq!(parse_prefix_number(&chars("0042")), Some((42, 4)));
    assert_eq!(parse_prefix_number(&chars("G01")), None);
    assert_eq!(parse_prefix_number(&chars("")), None);
    assert_eq!(parse_prefix_number(&chars("99999999999")), None);
    let long: String = std::iter::repeat('0').take(255).collect();
    assert_eq!(parse_prefix_number(&chars(&long)), Some((0, 255)));
    let too_long: String = std::iter::repeat('0').take(256).collect();
    assert_eq!(parse_prefix_number(&chars(&too_long)), None);
}

#[test]
fn clean_instructions_are_recognised() {
    let p = |s: &str| parse_clean_numbered_instruction(&chars(s));
    assert_eq!(p("G40G90"), Ok(Instruction::CoordinateSystemType(CoordinateSystemType::Global)));
    assert_eq!(p("F1500"), Ok(Instruction::MovementSpeed(1500)));
    assert_eq!(p("S10000"), Ok(Instruction::RotationSpeed(10000)));
    assert_eq!(p("M03"), Ok(Instruction::Winding(Winding::CW)));
    assert_eq!(p("M05"), Ok(Instruction::TurnOff));
    assert_eq!(p("M30"), Ok(Instruction::End));
    let target = Location { x: Some(num(false, 1, 0)), y: None, z: Some(num(true, 0, 500)) };
    assert_eq!(p("G00X1.000Z-0.500"), Ok(Instruction::MoveFast(target)));
    assert_eq!(p("G01X1.000Z-0.500"), Ok(Instruction::MoveSlow(target)));
}

#[test]
fn clean_instruction_errors() {
    let p = |s: &str| parse_clean_numbered_instruction(&chars(s));
    assert_eq!(p("F"), Err(ParseError::InvalidMovementSpeed));
    assert_eq!(p("F12a"), Err(ParseError::InvalidMovementSpeed));
    assert_eq!(p("S"), Err(ParseError::InvalidRotationSpeed));
    assert_eq!(
        p("S10000M03"),
        Ok(Instruction::RotationSpeedAndWinding { rotation_speed: 10000, winding: Winding::CW })
    );
    assert_eq!(p("S10000M04"), Err(ParseError::InstructionSyntaxError));
    assert_eq!(p("G00X1"), Err(ParseError::InvalidLocation));
    assert_eq!(p("G01Q1.000"), Err(ParseError::InvalidLocation));
    assert_eq!(p("M04"), Err(ParseError::UnknownInstruction));
    assert_eq!(p("10"), Err(ParseError::UnknownInstruction));
}

#[test]
fn unit_system_line() {
    assert_eq!(parse_instruction(&chars("%G71")), Ok(ProgramLine::UnitSystem(UnitSystem::Metric)));
    assert_eq!(parse_instruction(&chars("%G70")), Err(ParseError::UnsupportedUnitSystem));
    assert_eq!(parse_instruction(&chars("%G")), Err(ParseError::UnsupportedUnitSystem));
}

#[test]
fn numbered_lines_read_the_instruction_after_the_number() {
    let target = Location { x: Some(num(false, 1, 0)), y: Some(num(true, 2, 500)), z: Some(num(false, 3, 0)) };
    assert_eq!(
        parse_instruction(&chars("N3G01X1.000Y-2.500Z3.000")),
        Ok(ProgramLine::Instruction { number: 3, instruction: Instruction::MoveSlow(target) })
    );
    assert_eq!(
        parse_instruction(&chars("N1G40G90")),
        Ok(ProgramLine::Instruction {
            number: 1,
            instruction: Instruction::CoordinateSystemType(CoordinateSystemType::Global)
        })
    );
    assert_eq!(parse_instruction(&chars("N2M04")), Err(ParseError::UnknownInstruction));
    assert_eq!(parse_instruction(&chars("N2F1x")), Err(ParseError::UnknownInstruction));
    assert_eq!(parse_instruction(&chars("N")), Err(ParseError::InvalidLineNumber));
    assert_eq!(parse_instruction(&chars("NG01")), Err(ParseError::InvalidLineNumber));
    assert_eq!(parse_instruction(&chars("G01X1.000")), Err(ParseError::UnknownInstruction));
    assert_eq!(parse_instruction(&chars("")), Err(ParseError::UnknownInstruction));
}

#[test]
fn bare_moves_are_found_where_reading_reaches_them() {
    assert!(bare_move_line(&chars("N4G00")));
    assert!(bare_move_line(&chars("N4G01")));
    assert!(!bare_move_line(&chars("N4G01X1.000")));
    assert!(!bare_move_line(&chars("G00")));
    assert!(source_reaches_bare_move("%G71\n N1G01 \n%G71"));
    assert!(!source_reaches_bare_move("%G71\nfoo\nN1G01"));
    assert!(!source_reaches_bare_move("%G71\nN1G01X1.000"));
}

#[test]
fn parse_source_reads_trimmed_lines() {
    let lines = parse_source("  %G71 \r\n%G71\n\t%G71").unwrap();
    assert_eq!(lines, vec![ProgramLine::UnitSystem(UnitSystem::Metric); 3]);
    assert_eq!(parse_source("%G71\n").unwrap().len(), 1);
    assert_eq!(parse_source("").unwrap().len(), 0);
}

#[test]
fn parse_source_reports_the_first_bad_line() {
    let e = parse_source("%G71\n%G72\nfoo").unwrap_err();
    assert_eq!(e, LineParseError { line_number: 1, error: ParseError::UnsupportedUnitSystem });
    let e = parse_source("%G71\n\n%G71").unwrap_err();
    assert_eq!(e, LineParseError { line_number: 1, error: ParseError::UnknownInstruction });
    let e = parse_source("N1G40G90\nN2S10M04").unwrap_err();
    assert_eq!(e, LineParseError { line_number: 1, error: ParseError::UnknownInstruction });
    assert_eq!(
        parse_source("N1G40G90").unwrap(),
        vec![ProgramLine::Instruction {
            number: 1,
            instruction: Instruction::CoordinateSystemType(CoordinateSystemType::Global)
        }]
    );
}

fn numbered(number: u32, instruction: Instruction) -> ProgramLine {
    ProgramLine::Instruction { number, instruction }
}

fn good_lines() -> Vec<ProgramLine> {
    let loc = Location { x: Some(num(false, 1, 0)), y: Some(num(false, 2, 0)), z: None };
    vec![
        ProgramLine::UnitSystem(UnitSystem::Metric),
        numbered(0, Instruction::CoordinateSystemType(CoordinateSystemType::Global)),
        numbered(1, Instruction::Winding(Winding::CW)),
        numbered(2, Instruction::RotationSpeed(10000)),
        numbered(3, Instruction::MovementSpeed(5000)),
        numbered(4, Instruction::MoveFast(loc)),
        numbered(5, Instruction::MoveSlow(loc)),
        numbered(6, Instruction::TurnOff),
        numbered(7, Instruction::End),
    ]
}

fn shape() -> MillShape {
    MillShape { type_: MillType::Ball, diameter: 16 }
}

#[test]
fn strict_load_keeps_mill_steps() {
    let program = Program::from_lines(good_lines(), shape(), false).unwrap();
    let loc = Location { x: Some(num(false, 1, 0)), y: Some(num(false, 2, 0)), z: None };
    assert_eq!(
        program.instructions(),
        &[
            MillInstruction::RotationSpeed(10000),
            MillInstruction::MovementSpeed(5000),
            MillInstruction::MoveFast(loc),
            MillInstruction::MoveSlow(loc),
        ]
    );
    assert_eq!(program.shape(), shape());
}

#[test]
fn validation_errors() {
    let mut lines = good_lines();
    lines.remove(0);
    assert!(matches!(Program::validate_lines(&lines), Err(ProgramLoadError::UnitsNotSet)));

    let mut lines = good_lines();
    lines[3] = numbered(9, Instruction::RotationSpeed(1));
    assert!(matches!(
        Program::validate_lines(&lines),
        Err(ProgramLoadError::LineSequence { number: 9, actual: 2 })
    ));

    let mut lines = good_lines();
    lines[4] = ProgramLine::UnitSystem(UnitSystem::Metric);
    assert!(matches!(Program::validate_lines(&lines), Err(ProgramLoadError::StrayLine)));

    let mut lines = good_lines();
    lines[1] = numbered(0, Instruction::TurnOff);
    assert!(matches!(
        Program::validate_lines(&lines),
        Err(ProgramLoadError::CoordinateSystemNotSet)
    ));

    let mut lines = good_lines();
    lines.pop();
    assert!(matches!(Program::validate_lines(&lines), Err(ProgramLoadError::NoEndInstruction)));

    let mut lines = good_lines();
    lines[7] = numbered(6, Instruction::MovementSpeed(1));
    assert!(matches!(Program::validate_lines(&lines), Err(ProgramLoadError::NoTurnOff)));

    let mut lines = good_lines();
    lines.swap(2, 3);
    lines[2] = numbered(1, Instruction::RotationSpeed(10000));
    lines[3] = numbered(2, Instruction::Winding(Winding::CW));
    assert!(matches!(Program::validate_lines(&lines), Err(ProgramLoadError::NoWinding)));

    assert!(Program::validate_lines(&good_lines()).is_ok());
}

#[test]
fn lenient_load_skips_checks() {
    let lines = vec![numbered(5, Instruction::MovementSpeed(7))];
    assert!(matches!(
        Program::from_lines(lines.clone(), shape(), false),
        Err(ProgramLoadError::UnitsNotSet)
    ));
    let program = Program::from_lines(lines, shape(), true).unwrap();
    assert_eq!(program.instructions(), &[MillInstruction::MovementSpeed(7)]);
}

#[test]
fn program_extension_names_the_mill() {
    assert_eq!(
        Program::parse_program_extension("k16").unwrap(),
        MillShape { type_: MillType::Ball, diameter: 16 }
    );
    assert_eq!(
        Program::parse_program_extension("f08").unwrap(),
        MillShape { type_: MillType::Cylinder, diameter: 8 }
    );
    assert!(matches!(
        Program::parse_program_extension("x16"),
        Err(ProgramLoadError::InvalidExtension)
    ));
    assert!(matches!(
        Program::parse_program_extension("k"),
        Err(ProgramLoadError::InvalidExtension)
    ));
    assert!(matches!(
        Program::parse_program_extension("k1.5"),
        Err(ProgramLoadError::InvalidExtension)
    ));
}

#[test]
fn from_source_reports_each_stage() {
    assert!(matches!(
        Program::from_source("z1", "%G71", false),
        Err(ProgramLoadError::InvalidExtension)
    ));
    match Program::from_source("k16", "%G71\nN0G40G91", false) {
        Err(ProgramLoadError::ParseError(e)) => {
            assert_eq!(e, LineParseError { line_number: 1, error: ParseError::UnknownInstruction })
        }
        _ => panic!("expected a parse error"),
    }
    assert!(matches!(
        Program::from_source("k16", "%G71", false),
        Err(ProgramLoadError::CoordinateSystemNotSet)
    ));
    assert!(matches!(
        Program::from_source("k16", "%G71\nN0G40G90\nN1M05", false),
        Err(ProgramLoadError::NoEndInstruction)
    ));
    let program = Program::from_source("f10", "%G71\n%G71", true).unwrap();
    assert_eq!(program.instructions().len(), 0);
    assert_eq!(program.shape(), MillShape { type_: MillType::Cylinder, diameter: 10 });
}

#[test]
fn from_source_loads_a_strict_program() {
    let source = "%G71\nN0G40G90\nN1M03\nN2S10000\nN3F5000\nN4G00X1.000Y2.000\nN5G01Z-0.500\nN6M05\nN7M30\n";
    let program = Program::from_source("k16", source, false).unwrap();
    assert_eq!(
        program.instructions(),
        &[
            MillInstruction::RotationSpeed(10000),
            MillInstruction::MovementSpeed(5000),
            MillInstruction::MoveFast(Location {
                x: Some(num(false, 1, 0)),
                y: Some(num(false, 2, 0)),
                z: None
            }),
            MillInstruction::MoveSlow(Location { x: None, y: None, z: Some(num(true, 0, 500)) }),
        ]
    );
    assert_eq!(program.shape(), MillShape { type_: MillType::Ball, diameter: 16 });
}

#[test]
fn a_refused_coordinate_leaves_the_location() {
    let mut loc = Location::default();
    let s = chars("X1.000Y2.000");
    assert_eq!(loc.parse_new_coordinate(&s).map(|l| l.len()), Ok(6));
    assert_eq!(loc.parse_new_coordinate(&chars("X2.000")), Err(()));
    assert_eq!(loc, Location { x: Some(num(false, 1, 0)), y: None, z: None });
}

#[test]
fn cutter_shape_defaults_to_ball() {
    assert_eq!(CutterShape::default(), CutterShape::Ball);
}
