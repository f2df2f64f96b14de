#![allow(unused_imports)]

use lib::cli::{extract_imports, parse_code};
use lib::diag::{DiagLoc, DiagSink, Diagnostic, ErrorCode, FileId, Severity, Span, SubDiag};
use lib::frontend::ast::printer::{print_module, ty, PrintOpts};
use lib::frontend::ast::visitor::{walk_expr, walk_item, walk_module, walk_stmt, Visitor};
use lib::frontend::ast::{
    Arm, Expr, Field, Func, Item, Module, Param, Pattern, Stmt, StructDef, TypeExpr, UnionDef,
    UsePath, Variant,
};
use lib::frontend::counters::FrontendCounters;
use lib::frontend::escape::{BindingInfo, BindingKind, EscapeChecker, EscapeContext, OwnershipState};
use lib::frontend::lexer::{classify_comment, is_keyword, tokenize, CommentKind, Token, TokenKind, KEYWORDS};
use lib::frontend::parser::decl::{item_shape, ItemShape};
use lib::frontend::parser::expr::binding_power;
use lib::frontend::parser::stmt::{bind_kind, is_jump_keyword, BindKind};
use lib::frontend::parser::{parse, Parser};
use lib::frontend::resolve::module::{emit_circular_dependency, emit_undefined_module, Import, ModuleId, ModuleInfo, ModuleRegistry};
use lib::frontend::resolve::path::{PathError, PathResolver};
use lib::frontend::resolve::scope::{emit_redefinition_error, Scope, ScopeStack};
use lib::frontend::resolve::symbols::{Symbol, SymbolId, SymbolKind, SymbolTable};
use lib::frontend::resolve::Resolver;
use lib::frontend::typecheck::{Type, TypeChecker, TypeContext};
use lib::ice::{format_ice, FixedBuf, ISSUE_HINT, VERSION};
use lib::ExitCode;

#[test]
fn all_five_sigils_are_distinguished() {
    assert_eq!(classify_comment("-- 普通注释").0, CommentKind::Line);
    assert_eq!(classify_comment("--- 项文档").0, CommentKind::ItemDoc);
    assert_eq!(classify_comment("--! 模块文档").0, CommentKind::ModuleDoc);
    assert_eq!(classify_comment("--~ E4001 类型不匹配").0, CommentKind::TestAnnot);
    assert_eq!(classify_comment("--= tailcall count").0, CommentKind::Contract);
}

#[test]
fn bodies_drop_the_sigil_and_leading_space() {
    assert_eq!(classify_comment("--~ E4001 类型不匹配").1, "E4001 类型不匹配");
    assert_eq!(classify_comment("--= volatile-load u32").1, "volatile-load u32");
    assert_eq!(classify_comment("--- 描述下一项").1, "描述下一项");
}

#[test]
fn bare_dashes_at_end_of_line_are_line_comments() {
    assert_eq!(classify_comment("--"), (CommentKind::Line, ""));
}

#[test]
fn four_dashes_are_a_divider_not_item_doc() {
    // 分隔线不该把文档挂到下一项上。
    assert_eq!(classify_comment("----").0, CommentKind::Line);
    assert_eq!(classify_comment("--------").0, CommentKind::Line);
}

#[test]
fn dash_space_is_a_line_comment() {
    assert_eq!(classify_comment("-- ").0, CommentKind::Line);
    assert_eq!(classify_comment("--x").0, CommentKind::Line);
}

#[test]
fn sigil_without_body_still_classifies() {
    assert_eq!(classify_comment("--~"), (CommentKind::TestAnnot, ""));
    assert_eq!(classify_comment("--="), (CommentKind::Contract, ""));
    assert_eq!(classify_comment("--!"), (CommentKind::ModuleDoc, ""));
    assert_eq!(classify_comment("---"), (CommentKind::ItemDoc, ""));
}

#[test]
fn equals_divider_is_a_line_comment_not_a_contract() {
    // ADR 010:325：`--===` 之类的分隔线按普通行注释处理，否则检查点会
    // 对着 `== ...` 报「未识别断言种类」。
    assert_eq!(classify_comment("--===").0, CommentKind::Line);
    assert_eq!(classify_comment("--========").0, CommentKind::Line);
    assert_eq!(classify_comment("--=== 分节 ===").0, CommentKind::Line);
    // 紧跟空白才是契约断言。
    assert_eq!(classify_comment("--= tailcall f").0, CommentKind::Contract);
    assert_eq!(classify_comment("--=\ttailcall f").0, CommentKind::Contract);
}

#[test]
fn sigil_is_the_third_character_only() {
    // `--x=` 的第三个字符是 `x`，不是契约断言。
    assert_eq!(classify_comment("--x= tailcall f").0, CommentKind::Line);
    // 记号后再出现别的记号只是正文。
    assert_eq!(classify_comment("--~ --= 混在一起").0, CommentKind::TestAnnot);
}

#[test]
fn tokenize_yields_eof_without_panicking() {
    let mut sink = DiagSink::new();
    let toks = tokenize(FileId(0), "main :: () void => {}", &mut sink);
    assert!(toks.len() > 1, "应产出多个 token，最后一个是 EOF");
    assert_eq!(toks.last().unwrap().kind, TokenKind::Eof);
    assert!(!sink.has_errors());
}

// ── 数字字面量 ────────────────────────────────────────────────────────────

#[test]
fn lex_number_float() {
    let mut sink = DiagSink::new();
    let toks = tokenize(FileId(0), "3.14", &mut sink);
    assert!(matches!(toks[0].kind, TokenKind::Float(_)));
    assert!(!sink.has_errors());
}

#[test]
fn lex_number_hex() {
    let mut sink = DiagSink::new();
    let toks = tokenize(FileId(0), "0xFF", &mut sink);
    assert!(matches!(toks[0].kind, TokenKind::Int(_)));
    if let TokenKind::Int(s) = &toks[0].kind {
        assert_eq!(s.as_str(), "0xFF");
    }
}

#[test]
fn lex_number_binary() {
    let mut sink = DiagSink::new();
    let toks = tokenize(FileId(0), "0b1010", &mut sink);
    assert!(matches!(toks[0].kind, TokenKind::Int(_)));
    if let TokenKind::Int(s) = &toks[0].kind {
        assert_eq!(s.as_str(), "0b1010");
    }
}

#[test]
fn lex_number_octal() {
    let mut sink = DiagSink::new();
    let toks = tokenize(FileId(0), "0o755", &mut sink);
    assert!(matches!(toks[0].kind, TokenKind::Int(_)));
}

#[test]
fn lex_number_with_underscores() {
    let mut sink = DiagSink::new();
    let toks = tokenize(FileId(0), "1_000_000", &mut sink);
    assert!(matches!(toks[0].kind, TokenKind::Int(_)));
}

#[test]
fn lex_number_float_with_underscores() {
    let mut sink = DiagSink::new();
    let toks = tokenize(FileId(0), "3.14_15", &mut sink);
    assert!(matches!(toks[0].kind, TokenKind::Float(_)));
}

// ── 字符串字面量 ──────────────────────────────────────────────────────────

#[test]
fn lex_string_escape_newline() {
    let mut sink = DiagSink::new();
    let toks = tokenize(FileId(0), r#""\n""#, &mut sink);
    assert!(matches!(toks[0].kind, TokenKind::Str(_)));
    if let TokenKind::Str(s) = &toks[0].kind {
        assert_eq!(s.as_str(), "\n");
    }
}

#[test]
fn lex_string_escape_tab() {
    let mut sink = DiagSink::new();
    let toks = tokenize(FileId(0), r#""\t""#, &mut sink);
    if let TokenKind::Str(s) = &toks[0].kind {
        assert_eq!(s.as_str(), "\t");
    }
}

#[test]
fn lex_string_escape_cr() {
    let mut sink = DiagSink::new();
    let toks = tokenize(FileId(0), r#""\r""#, &mut sink);
    if let TokenKind::Str(s) = &toks[0].kind {
        assert_eq!(s.as_str(), "\r");
    }
}

#[test]
fn lex_string_escape_null() {
    let mut sink = DiagSink::new();
    let toks = tokenize(FileId(0), r#""\0""#, &mut sink);
    if let TokenKind::Str(s) = &toks[0].kind {
        assert_eq!(s.as_str(), "\0");
    }
}

#[test]
fn lex_string_escape_backslash() {
    let mut sink = DiagSink::new();
    let toks = tokenize(FileId(0), r#""\\""#, &mut sink);
    if let TokenKind::Str(s) = &toks[0].kind {
        assert_eq!(s.as_str(), "\\");
    }
}

#[test]
fn lex_string_escape_quote() {
    let mut sink = DiagSink::new();
    let toks = tokenize(FileId(0), r#""\"""#, &mut sink);
    if let TokenKind::Str(s) = &toks[0].kind {
        assert_eq!(s.as_str(), "\"");
    }
}

#[test]
fn lex_string_escape_single_quote() {
    let mut sink = DiagSink::new();
    let toks = tokenize(FileId(0), r#""\'""#, &mut sink);
    if let TokenKind::Str(s) = &toks[0].kind {
        assert_eq!(s.as_str(), "'");
    }
}

#[test]
fn lex_string_escape_hex() {
    let mut sink = DiagSink::new();
    let toks = tokenize(FileId(0), r#""\x41""#, &mut sink);
    if let TokenKind::Str(s) = &toks[0].kind {
        assert_eq!(s.as_str(), "A");
    }
}

#[test]
fn lex_string_escape_unicode() {
    let mut sink = DiagSink::new();
    let toks = tokenize(FileId(0), r#""\u{1F600}""#, &mut sink);
    assert!(matches!(toks[0].kind, TokenKind::Str(_)));
}





// ── raw 字符串 ────────────────────────────────────────────────────────────

#[test]
fn lex_raw_string_basic() {
    let mut sink = DiagSink::new();
    let toks = tokenize(FileId(0), "`hello world`", &mut sink);
    assert!(matches!(toks[0].kind, TokenKind::Str(_)));
    if let TokenKind::Str(s) = &toks[0].kind {
        assert_eq!(s.as_str(), "hello world");
    }
}

#[test]
fn lex_raw_string_unclosed_at_eof() {
    let mut sink = DiagSink::new();
    let toks = tokenize(FileId(0), "`unclosed", &mut sink);
    // raw string 遇到 EOF 静默停止，生成一个 Str token
    assert!(matches!(toks[0].kind, TokenKind::Str(_)));
}

#[test]
fn lex_raw_string_backslash_not_escape() {
    let mut sink = DiagSink::new();
    let toks = tokenize(FileId(0), r#"`a\nb`"#, &mut sink);
    if let TokenKind::Str(s) = &toks[0].kind {
        assert_eq!(s.as_str(), r"a\nb");
    }
}

// ── 字符字面量 ────────────────────────────────────────────────────────────

#[test]
fn lex_char_plain() {
    let mut sink = DiagSink::new();
    let toks = tokenize(FileId(0), "'A'", &mut sink);
    assert!(matches!(toks[0].kind, TokenKind::Int(_)));
    if let TokenKind::Int(s) = &toks[0].kind {
        assert_eq!(s.as_str(), "65"); // 'A' = 65
    }
}

#[test]
fn lex_char_escape_newline() {
    let mut sink = DiagSink::new();
    let toks = tokenize(FileId(0), r"'\n'", &mut sink);
    if let TokenKind::Int(s) = &toks[0].kind {
        assert_eq!(s.as_str(), "10"); // '\n' = 10
    }
}

#[test]
fn lex_char_escape_tab() {
    let mut sink = DiagSink::new();
    let toks = tokenize(FileId(0), r"'\t'", &mut sink);
    if let TokenKind::Int(s) = &toks[0].kind {
        assert_eq!(s.as_str(), "9");
    }
}

#[test]
fn lex_char_escape_cr() {
    let mut sink = DiagSink::new();
    let toks = tokenize(FileId(0), r"'\r'", &mut sink);
    if let TokenKind::Int(s) = &toks[0].kind {
        assert_eq!(s.as_str(), "13");
    }
}

#[test]
fn lex_char_escape_null() {
    let mut sink = DiagSink::new();
    let toks = tokenize(FileId(0), r"'\0'", &mut sink);
    if let TokenKind::Int(s) = &toks[0].kind {
        assert_eq!(s.as_str(), "0");
    }
}

#[test]
fn lex_char_escape_backslash() {
    let mut sink = DiagSink::new();
    let toks = tokenize(FileId(0), r"'\\'", &mut sink);
    if let TokenKind::Int(s) = &toks[0].kind {
        assert_eq!(s.as_str(), "92"); // '\\' = 92
    }
}

#[test]
fn lex_char_escape_single_quote() {
    let mut sink = DiagSink::new();
    let toks = tokenize(FileId(0), r"'\''", &mut sink);
    if let TokenKind::Int(s) = &toks[0].kind {
        assert_eq!(s.as_str(), "39"); // '\'' = 39
    }
}

#[test]
fn lex_char_escape_double_quote() {
    let mut sink = DiagSink::new();
    let toks = tokenize(FileId(0), r#"'\"'"#, &mut sink);
    if let TokenKind::Int(s) = &toks[0].kind {
        assert_eq!(s.as_str(), "34"); // '"' = 34
    }
}





// ── 双字符运算符 ──────────────────────────────────────────────────────────

#[test]
fn lex_shift_left() {
    let mut sink = DiagSink::new();
    let toks = tokenize(FileId(0), "<<", &mut sink);
    assert!(matches!(toks[0].kind, TokenKind::Punct("<<")));
}

#[test]
fn lex_shift_right() {
    let mut sink = DiagSink::new();
    let toks = tokenize(FileId(0), ">>", &mut sink);
    assert!(matches!(toks[0].kind, TokenKind::Punct(">>")));
}

#[test]
fn lex_logical_and() {
    let mut sink = DiagSink::new();
    let toks = tokenize(FileId(0), "&&", &mut sink);
    assert!(matches!(toks[0].kind, TokenKind::Punct("&&")));
}

#[test]
fn lex_logical_or() {
    let mut sink = DiagSink::new();
    let toks = tokenize(FileId(0), "||", &mut sink);
    assert!(matches!(toks[0].kind, TokenKind::Punct("||")));
}



// ── hex_value 内部函数覆盖 ────────────────────────────────────────────────

#[test]
fn lex_string_hex_lowercase_af() {
    // 触发 hex_value 里 b'a'..=b'f' 分支
    let mut sink = DiagSink::new();
    let toks = tokenize(FileId(0), r#""\xaf""#, &mut sink);
    if let TokenKind::Str(s) = &toks[0].kind {
        let ch = s.chars().next().unwrap();
        assert_eq!(ch as u32, 0xAF);
    }
}

#[test]
fn lex_string_hex_uppercase_af() {
    // 触发 hex_value 里 b'A'..=b'F' 分支
    let mut sink = DiagSink::new();
    let toks = tokenize(FileId(0), r#""\xAF""#, &mut sink);
    if let TokenKind::Str(s) = &toks[0].kind {
        let ch = s.chars().next().unwrap();
        assert_eq!(ch as u32, 0xAF);
    }
}

#[test]
fn lex_string_unknown_escape_emits_e2002() {
    let mut sink = DiagSink::new();
    let toks = tokenize(FileId(0), r#""\q""#, &mut sink);
    assert!(matches!(toks[0].kind, TokenKind::Str(_)));
    let diags = sink.finish();
    assert!(diags.iter().any(|d| d.code == 2002));
}

#[test]
fn lex_string_multiline_emits_e2001() {
    let mut sink = DiagSink::new();
    let _toks = tokenize(FileId(0), "\"abc\ndef", &mut sink);
    let diags = sink.finish();
    assert!(diags.iter().any(|d| d.code == 2001));
}

#[test]
fn lex_char_unknown_escape_emits_e2002() {
    let mut sink = DiagSink::new();
    let _toks = tokenize(FileId(0), r"'\q'", &mut sink);
    let diags = sink.finish();
    assert!(diags.iter().any(|d| d.code == 2002));
}

#[test]
fn lex_char_eof_after_open_emits_e2003() {
    let mut sink = DiagSink::new();
    let _toks = tokenize(FileId(0), "'", &mut sink);
    let diags = sink.finish();
    assert!(diags.iter().any(|d| d.code == 2003));
}

#[test]
fn lex_unknown_char_emits_e2004() {
    let mut sink = DiagSink::new();
    let _toks = tokenize(FileId(0), "$", &mut sink);
    let diags = sink.finish();
    assert!(diags.iter().any(|d| d.code == 2004));
}
