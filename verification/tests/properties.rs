//! Concrete checks of the library's laws, its edge cases and the outside
//! calls it makes.

use lib::cli::{parse_args, parse_code, Action};
use lib::diag::{DiagLoc, DiagSink, ErrorFormat, FileId, Severity, Span};
use lib::frontend::ast::printer::{print_module, PrintOpts};
use lib::frontend::ast::{Arm, Expr, Func, Item, Module, Param, Pattern, Stmt, TypeExpr};
use lib::frontend::escape::EscapeChecker;
use lib::frontend::lexer::tokenize;
use lib::frontend::parser::parse;
use lib::frontend::resolve::module::{ModuleId, ModuleRegistry};
use lib::frontend::resolve::path::{PathError, PathResolver};
use lib::frontend::resolve::SymbolTable;
use lib::frontend::typecheck::{Type, TypeChecker};
use lib::ice::FixedBuf;
use lib::ExitCode;

fn args(v: &[&str]) -> Vec<String> {
    v.iter().map(|s| s.to_string()).collect()
}

fn usage_message(a: Action) -> String {
    match a {
        Action::Usage(m) => m,
        _ => panic!("expected a usage error"),
    }
}

#[test]
fn args_fill_every_option() {
    let a = args(&[
        "--error-format=json",
        "--error-limit=+7",
        "-o",
        "out",
        "--emit=ast",
        "--emit=ir",
        "--stats",
        "--time-passes",
        "--emit-spans",
        "--debug-trace",
        "--verify-test-annotations",
        "a.kore",
        "b.kore",
    ]);
    match parse_args(&a) {
        Action::Compile(o) => {
            assert_eq!(o.inputs, vec!["a.kore".to_string(), "b.kore".to_string()]);
            assert_eq!(o.error_format, ErrorFormat::Json);
            assert_eq!(o.error_limit, 7);
            assert_eq!(o.emit, vec!["ast".to_string(), "ir".to_string()]);
            assert_eq!(o.output, Some("out".to_string()));
            assert!(o.stats && o.time_passes && o.emit_spans && o.debug_trace && o.verify_test_annotations);
        }
        _ => panic!("expected options"),
    }
}

#[test]
fn args_defaults_when_only_inputs() {
    match parse_args(&args(&["x.kore"])) {
        Action::Compile(o) => {
            assert_eq!(o.error_format, ErrorFormat::Human);
            assert_eq!(o.error_limit, 100);
            assert!(o.emit.is_empty());
            assert_eq!(o.output, None);
            assert!(!o.stats && !o.time_passes);
        }
        _ => panic!("expected options"),
    }
}

#[test]
fn args_usage_messages_are_exact() {
    assert_eq!(usage_message(parse_args(&args(&["--nope"]))), "未知选项：--nope");
    assert_eq!(usage_message(parse_args(&args(&["-"]))), "未知选项：-");
    assert_eq!(usage_message(parse_args(&args(&["--stats"]))), "未指定源文件");
    assert_eq!(usage_message(parse_args(&args(&["-o"]))), "`-o` 缺少路径");
    assert_eq!(
        usage_message(parse_args(&args(&["--error-limit=-1", "a.kore"]))),
        "--error-limit 需要非负整数，得到：-1"
    );
    assert_eq!(
        usage_message(parse_args(&args(&["--error-format=xml", "a.kore"]))),
        "未知的 --error-format 取值：xml（可选 human|json|short）"
    );
    assert_eq!(
        usage_message(parse_args(&args(&["--emit=hir", "a.kore"]))),
        "未知的 --emit 阶段：hir（可选 tokens|ast|resolved|typed|ir|llvm-ir|asm|obj）"
    );
    assert_eq!(
        usage_message(parse_args(&args(&["--explain", "x1"]))),
        "无法识别的错误码：x1"
    );
}

#[test]
fn args_error_limit_must_fit_u32() {
    assert!(matches!(
        parse_args(&args(&["--error-limit=4294967295", "a.kore"])),
        Action::Compile(o) if o.error_limit == 4294967295
    ));
    assert!(matches!(parse_args(&args(&["--error-limit=4294967296", "a.kore"])), Action::Usage(_)));
    assert!(matches!(parse_args(&args(&["--error-limit=", "a.kore"])), Action::Usage(_)));
}

#[test]
fn args_first_complaint_or_help_wins() {
    assert!(matches!(parse_args(&args(&["--nope", "-h"])), Action::Usage(_)));
    assert!(matches!(parse_args(&args(&["-h", "--nope"])), Action::Help));
    assert!(matches!(parse_args(&args(&["--explain", "e12", "--nope"])), Action::Explain(12)));
}

#[test]
fn args_single_emit_needs_no_output() {
    assert!(matches!(parse_args(&args(&["--emit=tokens", "a.kore"])), Action::Compile(_)));
}

#[test]
fn error_code_reads_the_same_with_or_without_prefix() {
    for d in ["0", "1", "4001", "65535", "65536", "12a"] {
        assert_eq!(parse_code(&format!("E{d}")), parse_code(d));
        assert_eq!(parse_code(&format!("e{d}")), parse_code(d));
    }
    assert_eq!(parse_code("E65535"), Some(65535));
    assert_eq!(parse_code("E65536"), None);
}

fn sp() -> Span {
    Span::new(FileId(0), 0, 1)
}

fn plain_func() -> Func {
    // f :: (a T) => { b := a; g(b, b); b = a }
    Func {
        is_public: false,
        name: "f".into(),
        params: vec![Param {
            name: "a".into(),
            ty: TypeExpr::Named("T".into(), sp()),
            is_mut: false,
            span: sp(),
        }],
        ret: None,
        err: None,
        body: Expr::Block {
            stmts: vec![
                Stmt::Let { name: "b".into(), is_mut: false, ty: None, init: Expr::Path(vec!["a".into()], sp()), span: sp() },
                Stmt::Expr(Expr::Call {
                    callee: Box::new(Expr::Path(vec!["g".into()], sp())),
                    args: vec![Expr::Path(vec!["b".into()], sp()), Expr::Path(vec!["b".into()], sp())],
                    span: sp(),
                }),
                Stmt::Assign {
                    target: Expr::Path(vec!["b".into()], sp()),
                    value: Expr::Path(vec!["a".into()], sp()),
                    span: sp(),
                },
            ],
            span: sp(),
        },
        span: sp(),
    }
}

#[test]
fn plain_function_gets_no_escape_diagnostic() {
    let mut sink = DiagSink::new();
    EscapeChecker::new(&mut sink).check_func(&plain_func());
    assert!(sink.finish().is_empty());
}

#[test]
fn escape_diagnostics_are_errors_with_escape_codes() {
    let mut f = plain_func();
    f.params[0].ty = TypeExpr::Own(Box::new(TypeExpr::Named("T".into(), sp())), sp());
    let mut sink = DiagSink::new();
    EscapeChecker::new(&mut sink).check_func(&f);
    let diags = sink.finish();
    assert!(!diags.is_empty());
    for d in &diags {
        assert_eq!(d.severity, Severity::Error);
        assert!(matches!(d.code, 5001 | 5002 | 5003));
    }
    // `a` moved into `b`, then read again in the assignment.
    assert_eq!(diags[0].code, 5001);
}

#[test]
fn registered_path_is_found_again_at_its_id() {
    let mut reg = ModuleRegistry::new();
    let m = || Module { items: Vec::new(), span: sp() };
    let a = reg.register_module("a.kore".into(), "a".into(), m(), Vec::new());
    let b = reg.register_module("b.kore".into(), "b".into(), m(), Vec::new());
    let a2 = reg.register_module("a.kore".into(), "other".into(), m(), Vec::new());
    assert_eq!((a, b, a2), (ModuleId(0), ModuleId(1), ModuleId(0)));
    assert_eq!(reg.find_module_by_path(&"b.kore".to_string()), Some(b));
    assert_eq!(reg.len(), 2);
}

#[test]
fn topological_order_puts_dependencies_first() {
    let mut reg = ModuleRegistry::new();
    let m = || Module { items: Vec::new(), span: sp() };
    let a = reg.register_module("a.kore".into(), "a".into(), m(), Vec::new());
    let b = reg.register_module("b.kore".into(), "b".into(), m(), Vec::new());
    let c = reg.register_module("c.kore".into(), "c".into(), m(), Vec::new());
    reg.add_dependency(a, c);
    reg.add_dependency(c, b);
    assert!(reg.check_cycles().is_ok());
    assert_eq!(reg.topological_sort(), Ok(vec![b, c, a]));
    reg.add_dependency(b, a);
    let cycle = reg.check_cycles().unwrap_err();
    let mut sorted = cycle.clone();
    sorted.sort_by_key(|m| m.0);
    assert_eq!(sorted, vec![a, b, c]);
}

#[test]
fn a_cycle_lists_only_its_own_modules() {
    let mut reg = ModuleRegistry::new();
    let m = || Module { items: Vec::new(), span: sp() };
    let a = reg.register_module("a.kore".into(), "a".into(), m(), Vec::new());
    let b = reg.register_module("b.kore".into(), "b".into(), m(), Vec::new());
    let c = reg.register_module("c.kore".into(), "c".into(), m(), Vec::new());
    // `a` uses the cycle b -> c -> b without lying on it.
    reg.add_dependency(a, b);
    reg.add_dependency(b, c);
    reg.add_dependency(c, b);
    let mut cycle = reg.check_cycles().unwrap_err();
    cycle.sort_by_key(|m| m.0);
    assert_eq!(cycle, vec![b, c]);
}

#[test]
fn use_path_is_joined_below_the_file_directory() {
    let r = PathResolver::new("/w/src/main.kore");
    assert_eq!(r.current_dir(), "/w/src");
    assert_eq!(r.resolve_use_path(&args(&["x"])), Ok("/w/src/x.kore".to_string()));
    assert_eq!(r.resolve_use_path(&args(&["p", "q", "r"])), Ok("/w/src/p/q/r.kore".to_string()));
    assert_eq!(r.resolve_use_path(&[]), Err(PathError::EmptyPath));
    assert_eq!(PathError::FileNotFound("z.kore".into()).message(), "file not found: z.kore");
    assert_eq!(PathError::EmptyPath.message(), "empty use path");
}

#[test]
fn root_file_resolves_from_its_empty_parent() {
    let r = PathResolver::new("/");
    // `/` has no parent: the directory falls back to `.`.
    assert_eq!(r.current_dir(), ".");
    assert_eq!(r.resolve_use_path(&args(&["m"])), Ok("./m.kore".to_string()));
}

fn parse_src(src: &str) -> (Module, usize) {
    let mut sink = DiagSink::new();
    let toks = tokenize(FileId(0), src, &mut sink);
    let n = toks.len();
    (parse(FileId(0), toks, &mut sink), n)
}

#[test]
fn empty_source_parses_to_no_items() {
    let (m, n) = parse_src("-- only a comment\n");
    assert!(m.items.is_empty());
    assert!(m.items.len() < n);
}

#[test]
fn item_heads_name_shape_and_visibility() {
    let (m, _) = parse_src("use std.io\npub Vec2 :: {x, y i32}\nShape :: .Dot | .Line(i32)\nf :: () void => 0");
    assert_eq!(m.items.len(), 4);
    match &m.items[0] {
        Item::Use(u) => assert_eq!(u.segments, vec!["std".to_string(), "io".to_string()]),
        other => panic!("unexpected item {other:?}"),
    }
    match &m.items[1] {
        Item::Struct(s) => {
            assert_eq!(s.name, "Vec2");
            assert!(s.is_public);
        },
        other => panic!("unexpected item {other:?}"),
    }
    match &m.items[2] {
        Item::Union(u) => {
            assert_eq!(u.name, "Shape");
            assert!(!u.is_public);
        },
        other => panic!("unexpected item {other:?}"),
    }
    match &m.items[3] {
        Item::Func(f) => {
            assert_eq!(f.name, "f");
            assert!(!f.is_public);
        },
        other => panic!("unexpected item {other:?}"),
    }
}

#[test]
fn import_path_stops_at_a_dot_without_a_name() {
    let mut sink = DiagSink::new();
    let toks = tokenize(FileId(0), "use a.b.", &mut sink);
    let m = parse(FileId(0), toks, &mut sink);
    match &m.items[0] {
        Item::Use(u) => assert_eq!(u.segments, vec!["a".to_string(), "b".to_string()]),
        other => panic!("unexpected item {other:?}"),
    }
    assert!(sink.has_errors());
}

fn first_stmt_of_main(m: &Module) -> &Stmt {
    match &m.items[0] {
        Item::Func(f) => match &f.body {
            Expr::Block { stmts, .. } => &stmts[0],
            other => panic!("unexpected body {other:?}"),
        },
        other => panic!("unexpected item {other:?}"),
    }
}

#[test]
fn lowercase_after_dot_is_a_field_uppercase_is_not() {
    let (m, _) = parse_src("main :: () void => { a.b }");
    assert!(matches!(first_stmt_of_main(&m), Stmt::Expr(Expr::Field { .. })));
    let (m, _) = parse_src("main :: () void => { a.B }");
    assert!(!matches!(first_stmt_of_main(&m), Stmt::Expr(Expr::Field { .. })));
}

#[test]
fn string_literals_print_escaped() {
    let m = Module {
        items: vec![Item::Func(Func {
            is_public: false,
            name: "f".into(),
            params: Vec::new(),
            ret: None,
            err: None,
            body: Expr::Str("a\"b\n".into(), sp()),
            span: sp(),
        })],
        span: sp(),
    };
    let out = print_module(&m, PrintOpts::default());
    assert!(out.contains("\"a\\\"b\\n\""), "{out}");
    let open = out.matches('(').count();
    assert_eq!(open, out.matches(')').count());
}

#[test]
fn fixed_buffer_never_grows_past_capacity() {
    let mut b = FixedBuf::<8>::new();
    b.push_str("abc");
    assert_eq!((b.len(), b.truncated()), (3, false));
    b.push_str("defghij");
    assert_eq!(b.len(), 8);
    assert!(b.truncated());
    assert_eq!(b.as_str(), "abcdefgh");
    b.push_u32(42);
    assert_eq!(b.as_str(), "abcdefgh");
}

#[test]
fn exit_code_numbers() {
    assert_eq!(
        [ExitCode::Success, ExitCode::CompileError, ExitCode::UsageError, ExitCode::Ice].map(|c| c.as_i32()),
        [0, 1, 2, 101]
    );
}

fn resolve_src(src: &str) -> Vec<lib::diag::Diagnostic> {
    let (m, _) = parse_src(src);
    let mut sink = DiagSink::new();
    let _table = lib::frontend::resolve::Resolver::new(&mut sink).resolve(&m);
    sink.finish()
}

#[test]
fn forward_references_and_builtins_resolve() {
    let diags = resolve_src("main :: () void => { helper() }\nhelper :: () void => { print(1) }\nP :: { x i32 }");
    assert!(diags.iter().all(|d| d.code != 4002), "{diags:?}");
}

#[test]
fn unknown_name_is_reported_with_its_name() {
    let diags = resolve_src("main :: () void => { nope() }");
    assert_eq!(diags.len(), 1);
    assert_eq!(diags[0].code, 4002);
    assert_eq!(diags[0].msg, "未定义的名字 `nope`");
}

#[test]
fn annotated_let_gives_the_variable_its_type() {
    let symbols = SymbolTable::new();
    let mut sink = DiagSink::new();
    let mut checker = TypeChecker::new(&symbols, &mut sink);
    let block = Expr::Block {
        stmts: vec![
            Stmt::Let {
                name: "x".into(),
                is_mut: false,
                ty: Some(TypeExpr::Named("i64".into(), sp())),
                // An unknown name has no type of its own.
                init: Expr::Path(vec!["y".into()], sp()),
                span: sp(),
            },
            Stmt::Expr(Expr::Path(vec!["x".into()], sp())),
        ],
        span: sp(),
    };
    assert_eq!(checker.check_expr(&block), Type::i64());
    assert_eq!(sink.err_count(), 0);
}

#[test]
fn checked_module_knows_every_signature_and_builtin() {
    let (m, _) = parse_src(
        "P :: { x i32 }\nmain :: () void => { helper() }\nhelper :: () void => { print(\"hi\") }",
    );
    let symbols = SymbolTable::new();
    let mut sink = DiagSink::new();
    let mut checker = TypeChecker::new(&symbols, &mut sink);
    checker.check_module(&m);
    let ctx = checker.type_context();
    for name in ["main", "helper", "print", "println", "eprint", "eprintln", "read_file", "write_file", "exit"] {
        assert!(ctx.get_func(name).is_some(), "{name}");
    }
    if m.items.iter().any(|it| matches!(it, Item::Struct(_))) {
        assert!(ctx.get_struct("P").is_some());
    }
}

#[test]
fn dependency_on_unregistered_module_has_no_order() {
    let mut reg = ModuleRegistry::new();
    let m = || Module { items: Vec::new(), span: sp() };
    let a = reg.register_module("a.kore".into(), "a".into(), m(), Vec::new());
    reg.add_dependency(a, ModuleId(7));
    assert!(reg.check_cycles().is_ok());
    assert_eq!(reg.topological_sort(), Err(()));
}

#[test]
fn module_dump_is_exact() {
    let m = Module {
        items: vec![Item::Func(Func {
            is_public: false,
            name: "f".into(),
            params: vec![Param {
                name: "x".into(),
                ty: TypeExpr::Borrow(Box::new(TypeExpr::Named("T".into(), sp())), sp()),
                is_mut: true,
                span: sp(),
            }],
            ret: Some(TypeExpr::Named("i32".into(), sp())),
            err: None,
            body: Expr::Int("1".into(), sp()),
            span: sp(),
        })],
        span: sp(),
    };
    assert_eq!(
        print_module(&m, PrintOpts::default()),
        "(module\n  (func f\n    (param ~x ^T)\n    (ret-type i32)\n    (int 1)\n  )\n)\n"
    );
    assert_eq!(
        print_module(&m, PrintOpts { spans: true }),
        "(module\n  (func f :span 0 0 1\n    (param ~x ^T)\n    (ret-type i32)\n    (int 1 :span 0 0 1)\n  )\n)\n"
    );
}

fn cond_arm(c: bool, body: Expr) -> Arm {
    Arm { pattern: Pattern::Cond(Box::new(Expr::Bool(c, sp()))), body, span: sp() }
}

#[test]
fn branch_arms_of_one_type_give_that_type() {
    let symbols = SymbolTable::new();
    let mut sink = DiagSink::new();
    let mut checker = TypeChecker::new(&symbols, &mut sink);
    let e = Expr::Branch {
        scrutinee: None,
        arms: vec![
            cond_arm(true, Expr::Int("1".into(), sp())),
            cond_arm(false, Expr::Ret(None, sp())),
            cond_arm(false, Expr::Int("2".into(), sp())),
        ],
        span: sp(),
    };
    assert_eq!(checker.check_expr(&e), Type::i32());
    let e = Expr::Branch {
        scrutinee: None,
        arms: vec![cond_arm(true, Expr::Int("1".into(), sp())), cond_arm(false, Expr::Bool(true, sp()))],
        span: sp(),
    };
    assert_eq!(checker.check_expr(&e), Type::Unknown);
    assert_eq!(sink.err_count(), 0);
}

#[test]
fn branch_mixing_void_and_value_needs_statement_position() {
    let mixed = || Expr::Branch {
        scrutinee: None,
        arms: vec![cond_arm(true, Expr::Int("1".into(), sp())), cond_arm(false, Expr::Nil(sp()))],
        span: sp(),
    };
    let symbols = SymbolTable::new();
    let mut sink = DiagSink::new();
    let mut checker = TypeChecker::new(&symbols, &mut sink);
    assert_eq!(checker.check_expr(&mixed()), Type::Unknown);
    let diags = sink.finish();
    assert_eq!(diags.len(), 1);
    assert_eq!(diags[0].code, 4001);

    let mut sink = DiagSink::new();
    let mut checker = TypeChecker::new(&symbols, &mut sink);
    let block = Expr::Block { stmts: vec![Stmt::Expr(mixed()), Stmt::Expr(Expr::Nil(sp()))], span: sp() };
    assert_eq!(checker.check_expr(&block), Type::Void);
    assert_eq!(sink.err_count(), 0);
}

#[test]
fn function_body_must_have_the_declared_type() {
    let check = |src: &str| {
        let (m, _) = parse_src(src);
        let symbols = SymbolTable::new();
        let mut sink = DiagSink::new();
        TypeChecker::new(&symbols, &mut sink).check_module(&m);
        sink.finish()
    };
    assert!(check("f :: (a i64, b i64) i64 => a + b").is_empty());
    assert!(check("f :: () i32 => ret 1").is_empty());
    let diags = check("f :: (a i64) bool => a");
    assert_eq!(diags.len(), 1);
    assert_eq!(diags[0].code, 9001);
}

#[test]
fn variant_belongs_to_the_first_union_that_declares_it() {
    let symbols = SymbolTable::new();
    let mut sink = DiagSink::new();
    let mut checker = TypeChecker::new(&symbols, &mut sink);
    checker.type_ctx.define_union("A".into(), vec![("X".into(), Type::Void)]);
    checker.type_ctx.define_union("B".into(), vec![("X".into(), Type::Void), ("Y".into(), Type::Void)]);
    let ctor = |n: &str| Expr::VariantConstructor { name: n.into(), payload: None, span: sp() };
    assert_eq!(checker.check_expr(&ctor("X")), Type::Union("A".into()));
    assert_eq!(checker.check_expr(&ctor("Y")), Type::Union("B".into()));
    assert_eq!(checker.check_expr(&ctor("Z")), Type::Unknown);
    assert_eq!(sink.err_count(), 1);
}

#[test]
fn move_in_one_arm_counts_after_the_branch() {
    let at = |lo: u32| Span::new(FileId(0), lo, lo + 1);
    let own = Param {
        name: "x".into(),
        ty: TypeExpr::Own(Box::new(TypeExpr::Named("i32".into(), sp())), sp()),
        is_mut: false,
        span: sp(),
    };
    let call = Expr::Call {
        callee: Box::new(Expr::Path(vec!["g".into()], sp())),
        args: vec![Expr::Path(vec!["x".into()], at(5))],
        span: sp(),
    };
    let body = Expr::Block {
        stmts: vec![
            Stmt::Expr(Expr::Branch {
                scrutinee: None,
                arms: vec![cond_arm(true, call), cond_arm(false, Expr::Nil(sp()))],
                span: at(2),
            }),
            Stmt::Expr(Expr::Path(vec!["x".into()], at(9))),
        ],
        span: sp(),
    };
    let f = Func { name: "f".into(), params: vec![own], ret: None, err: None, body, span: sp(), is_public: false };
    let mut sink = DiagSink::new();
    EscapeChecker::new(&mut sink).check_func(&f);
    let diags = sink.finish();
    assert_eq!(diags.len(), 1);
    assert_eq!(diags[0].code, 5001);
    assert_eq!(diags[0].msg, "'x' 在移动后被使用（首次移动位置：偏移 2）");
    assert_eq!(diags[0].loc, DiagLoc::At(at(9)));
}

#[test]
fn names_are_reported_where_no_scope_binds_them() {
    let diags = resolve_src("f :: (a i32) i32 => { { x := a }\n x }");
    let undefined: Vec<_> = diags.iter().filter(|d| d.code == 4002).collect();
    assert_eq!(undefined.len(), 1, "{diags:?}");
    assert_eq!(undefined[0].msg, "未定义的名字 `x`");
    let diags = resolve_src("f :: (a i32) i32 => { x := a\n x }");
    assert!(diags.iter().all(|d| d.code != 4002), "{diags:?}");
}

#[test]
fn match_arms_read_their_pattern_from_the_first_tokens() {
    let (m, _) = parse_src("f :: (x i32) i32 => ? x is { 1 => 10, y => 20, .Some(z) => 30 }");
    let arms = match &m.items[0] {
        Item::Func(f) => match &f.body {
            Expr::Branch { arms, .. } => arms,
            other => panic!("unexpected body {other:?}"),
        },
        other => panic!("unexpected item {other:?}"),
    };
    assert_eq!(arms.len(), 3);
    assert!(matches!(&arms[0].pattern, Pattern::Lit(l) if matches!(&**l, Expr::Int(v, _) if v == "1")));
    assert!(matches!(&arms[1].pattern, Pattern::Bind(n, _) if n == "y"));
    assert!(matches!(&arms[2].pattern, Pattern::Variant { name, bindings, .. } if name == "Some" && bindings == &vec!["z".to_string()]));
}

#[test]
fn call_arguments_start_with_their_first_operand() {
    let (m, _) = parse_src("main :: () void => { g(1 + 2, h) }");
    match first_stmt_of_main(&m) {
        Stmt::Expr(Expr::Call { callee, args, .. }) => {
            assert!(matches!(&**callee, Expr::Path(p, _) if p == &vec!["g".to_string()]));
            assert_eq!(args.len(), 2);
            assert!(matches!(&args[0], Expr::Binary { op: "+", lhs, .. } if matches!(&**lhs, Expr::Int(v, _) if v == "1")));
        },
        other => panic!("unexpected statement {other:?}"),
    }
}

#[test]
fn imports_become_dependencies_on_registered_modules() {
    let mut reg = ModuleRegistry::new();
    let m = || Module { items: Vec::new(), span: sp() };
    let imp = |n: &str| lib::frontend::resolve::module::Import {
        imported_name: n.into(),
        segments: vec![n.to_string()],
        span: sp(),
    };
    let b = reg.register_module("b.kore".into(), "b".into(), m(), Vec::new());
    let a = reg.register_module("a.kore".into(), "a".into(), m(), vec![imp("b"), imp("missing")]);
    reg.link_imports(a);
    assert_eq!(reg.topological_sort(), Ok(vec![b, a]));
    reg.add_dependency(b, a);
    assert!(reg.check_cycles().is_err());
}

#[test]
fn use_of_an_unknown_module_is_reported() {
    let (m, _) = parse_src("use nowhere\nf :: () void => {}");
    let mut reg = ModuleRegistry::new();
    let me = reg.register_module("f.kore".into(), "f".into(), Module { items: Vec::new(), span: sp() }, Vec::new());
    let mut sink = DiagSink::new();
    let _ = lib::frontend::resolve::Resolver::with_registry(&mut sink, &mut reg, me).resolve(&m);
    let diags = sink.finish();
    assert!(diags.iter().any(|d| d.code == 4006), "{diags:?}");
}
