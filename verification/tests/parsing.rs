//! Tests for the textual grammars: commands, breakpoint specifications,
//! memory read expressions, field element literals, and configuration
//! values.

use miden_debugger::breakpoint::{BreakpointParseError, BreakpointType};
use miden_debugger::commands::{CommandError, ReplCommand};
use miden_debugger::config::ColorChoice;
use miden_debugger::felt::{Felt, FeltParseError, FeltParser, FIELD_MODULUS};
use miden_debugger::input::{InputFile, InputFileParser};
use miden_debugger::linker::{LibraryKind, LinkLibrary, LinkLibraryParser};
use miden_debugger::memexpr::{FormatType, MemExprError, ReadMemoryExpr};
use miden_debugger::trace::NativeType;

#[test]
fn commands_parse() {
    assert!(matches!(ReplCommand::parse("s"), Ok(ReplCommand::Step)));
    assert!(matches!(ReplCommand::parse("step 12"), Ok(ReplCommand::StepN(12))));
    assert!(matches!(ReplCommand::parse("  continue  "), Ok(ReplCommand::Continue)));
    assert!(matches!(ReplCommand::parse("n"), Ok(ReplCommand::Next)));
    assert!(matches!(ReplCommand::parse("e"), Ok(ReplCommand::Finish)));
    assert!(matches!(ReplCommand::parse("bp"), Ok(ReplCommand::Breakpoints)));
    assert!(matches!(ReplCommand::parse("d 3"), Ok(ReplCommand::Delete(Some(3)))));
    assert!(matches!(ReplCommand::parse("d"), Ok(ReplCommand::Delete(None))));
    assert!(matches!(ReplCommand::parse("stack"), Ok(ReplCommand::Stack)));
    assert!(matches!(ReplCommand::parse("locals"), Ok(ReplCommand::Locals)));
    assert!(matches!(ReplCommand::parse("vars"), Ok(ReplCommand::Vars)));
    assert!(matches!(ReplCommand::parse("w"), Ok(ReplCommand::Where)));
    assert!(matches!(ReplCommand::parse("l"), Ok(ReplCommand::List)));
    assert!(matches!(ReplCommand::parse("bt"), Ok(ReplCommand::Backtrace)));
    assert!(matches!(ReplCommand::parse("reload"), Ok(ReplCommand::Reload)));
    assert!(matches!(ReplCommand::parse("?"), Ok(ReplCommand::Help)));
    assert!(matches!(ReplCommand::parse("exit"), Ok(ReplCommand::Quit)));

    assert_eq!(ReplCommand::parse("").err(), Some(CommandError::Empty));
    assert_eq!(ReplCommand::parse("   ").err(), Some(CommandError::Empty));
    assert_eq!(ReplCommand::parse("frobnicate").err(), Some(CommandError::UnknownCommand));
    assert_eq!(ReplCommand::parse("step many").err(), Some(CommandError::InvalidCount));
    assert_eq!(ReplCommand::parse("d 700").err(), Some(CommandError::InvalidDeleteId));
    assert_eq!(ReplCommand::parse("stack now").err(), Some(CommandError::UnexpectedArgument));
    assert_eq!(
        ReplCommand::parse("b").err(),
        Some(CommandError::Breakpoint(BreakpointParseError::MissingSpec))
    );
    assert_eq!(
        ReplCommand::parse("mem").err(),
        Some(CommandError::Memory(MemExprError::MissingAddress))
    );
}

#[test]
fn breakpoint_specs_parse() {
    match BreakpointType::parse("at 30") {
        Ok(BreakpointType::AtCycle(30)) => {},
        other => panic!("unexpected: {other:?}"),
    }
    match BreakpointType::parse("after 0x10") {
        Ok(BreakpointType::AfterNCycles(16)) => {},
        other => panic!("unexpected: {other:?}"),
    }
    match BreakpointType::parse("in my::proc") {
        Ok(BreakpointType::InProcedure(name)) => assert_eq!(name, "my::proc"),
        other => panic!("unexpected: {other:?}"),
    }
    match BreakpointType::parse("lib/foo.masm:17") {
        Ok(BreakpointType::AtSourceLocation { file, line }) => {
            assert_eq!(file, "lib/foo.masm");
            assert_eq!(line, Some(17));
        },
        other => panic!("unexpected: {other:?}"),
    }
    match BreakpointType::parse("lib/foo.masm") {
        Ok(BreakpointType::AtSourceLocation { file, line }) => {
            assert_eq!(file, "lib/foo.masm");
            assert_eq!(line, None);
        },
        other => panic!("unexpected: {other:?}"),
    }
    assert_eq!(BreakpointType::parse("at x").err(), Some(BreakpointParseError::InvalidCycle));
    assert_eq!(BreakpointType::parse("in").err(), Some(BreakpointParseError::InvalidProcedure));
    assert_eq!(BreakpointType::parse("a b c").err(), Some(BreakpointParseError::InvalidSpec));
}

#[test]
fn memory_expressions_parse() {
    let e = ReadMemoryExpr::parse("0x100 u32").unwrap();
    assert_eq!(e.addr.addr, 64);
    assert_eq!(e.addr.offset, 0);
    assert_eq!(e.ty, NativeType::U32);
    assert_eq!(e.format, FormatType::Decimal);
    assert_eq!(e.count, 1);

    let e = ReadMemoryExpr::parse("33").unwrap();
    assert_eq!(e.addr.addr, 8);
    assert_eq!(e.addr.offset, 1);
    assert_eq!(e.ty, NativeType::Felt);

    let e = ReadMemoryExpr::parse("16 word hex 4").unwrap();
    assert_eq!(e.ty, NativeType::Word);
    assert_eq!(e.format, FormatType::Hex);
    assert_eq!(e.count, 4);

    assert_eq!(ReadMemoryExpr::parse("").err(), Some(MemExprError::MissingAddress));
    assert_eq!(ReadMemoryExpr::parse("zzz").err(), Some(MemExprError::InvalidAddress));
    assert_eq!(ReadMemoryExpr::parse("8589934592").err(), Some(MemExprError::InvalidAddress));
    assert_eq!(ReadMemoryExpr::parse("4 floaty").err(), Some(MemExprError::UnknownType));
    assert_eq!(ReadMemoryExpr::parse("4 u8 octal").err(), Some(MemExprError::UnknownFormat));
    assert_eq!(ReadMemoryExpr::parse("4 u8 hex x").err(), Some(MemExprError::InvalidCount));
    assert_eq!(ReadMemoryExpr::parse("4 u8 hex 1 boom").err(), Some(MemExprError::TooManyTokens));
}

#[test]
fn felt_literals_parse() {
    assert_eq!(Felt::parse("123").unwrap().as_u64(), 123);
    assert_eq!(Felt::parse("0xff").unwrap().as_u64(), 255);
    assert_eq!(Felt::parse("").err(), Some(FeltParseError::Invalid));
    assert_eq!(Felt::parse("12a").err(), Some(FeltParseError::Invalid));
    // The modulus itself is not a canonical element.
    assert_eq!(Felt::parse("18446744069414584321").err(), Some(FeltParseError::ExceedsModulus));
    assert_eq!(Felt::parse("18446744069414584320").unwrap().as_u64(), FIELD_MODULUS - 1);
    // The command-line parser additionally trims whitespace.
    assert_eq!(FeltParser.parse("  42  ").unwrap().as_u64(), 42);
}

#[test]
fn color_choices_parse() {
    assert_eq!(ColorChoice::parse("always").unwrap(), ColorChoice::Always);
    assert_eq!(ColorChoice::parse("ALWAYS-ANSI").unwrap(), ColorChoice::AlwaysAnsi);
    assert_eq!(ColorChoice::parse("Never").unwrap(), ColorChoice::Never);
    assert_eq!(ColorChoice::parse("auto").unwrap(), ColorChoice::Auto);
    let err = ColorChoice::parse("rainbow").unwrap_err();
    assert_eq!(err.message(), "invalid color choice: rainbow");

    assert!(ColorChoice::Always.should_attempt_color(false));
    assert!(!ColorChoice::Never.should_attempt_color(true));
    assert!(ColorChoice::Auto.should_attempt_color(true));
    assert!(!ColorChoice::Auto.should_attempt_color(false));
    assert!(ColorChoice::AlwaysAnsi.should_ansi());
    assert!(!ColorChoice::Always.should_ansi());
}

#[test]
fn link_libraries_parse() {
    let lib = LinkLibraryParser.parse("std").unwrap();
    assert_eq!(lib.name(), "std");
    assert_eq!(lib.path, None);
    assert_eq!(lib.kind, LibraryKind::Masp);

    let lib = LinkLibraryParser.parse("masm=mylib").unwrap();
    assert_eq!(lib.name(), "mylib");
    assert_eq!(lib.kind, LibraryKind::Masm);

    let lib = LinkLibraryParser.parse("mylib.masm").unwrap();
    assert_eq!(lib.name(), "mylib");
    assert_eq!(lib.kind, LibraryKind::Masm);
    assert_eq!(lib.path, None);

    let lib = LinkLibraryParser.parse("/target/libs/miden-base.masl").unwrap_err();
    // `.masl` names no known kind.
    assert_eq!(lib, miden_debugger::linker::LinkParseError::UnknownKind);

    let lib = LinkLibraryParser.parse("/target/libs/miden-base.masp").unwrap();
    assert_eq!(lib.name(), "miden-base");
    assert_eq!(lib.path.as_deref(), Some("/target/libs/miden-base.masp"));
    assert_eq!(lib.kind, LibraryKind::Masp);

    assert_eq!(
        LinkLibraryParser.parse("").unwrap_err(),
        miden_debugger::linker::LinkParseError::MissingName
    );

    assert_eq!(LinkLibrary::stdlib().name(), "std");
    assert_eq!(LinkLibrary::base().name(), "base");
}

#[test]
fn input_files_classify() {
    let f = InputFile::from_path("dir/sub/prog.masp".to_string());
    assert_eq!(f.file_name(), "prog.masp");
    assert_eq!(f.library_kind(), None);

    let f = InputFile::Real("noslash".to_string());
    assert_eq!(f.file_name(), "noslash");

    // A trailing separator does not hide the final component, and a
    // parent-directory ending names no file.
    let f = InputFile::Real("dir/sub/".to_string());
    assert_eq!(f.file_name(), "sub");
    let f = InputFile::Real("dir/..".to_string());
    assert_eq!(f.file_name(), "<noname>");
    let f = InputFile::Real("///".to_string());
    assert_eq!(f.file_name(), "<noname>");

    let magic = vec![b'M', b'A', b'S', b'P', 0, 1, 2];
    let f = InputFile::Stdin(magic);
    assert_eq!(f.file_name(), "<noname>");
    assert_eq!(f.library_kind(), Some(LibraryKind::Masp));

    let f = InputFile::Stdin(vec![b'#', b'!']);
    assert_eq!(f.library_kind(), Some(LibraryKind::Masm));

    assert!(InputFileParser.wants_stdin("-"));
    assert!(!InputFileParser.wants_stdin("file.masp"));
}
