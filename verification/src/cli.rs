//! The command-line driver's logic on plain values: reading the arguments,
//! reading an error code written on the command line, and collecting a
//! module's imports.

use crate::diag::{format_named, ErrorFormat, DEFAULT_ERROR_LIMIT};
use crate::frontend::ast::{Item, Module, UsePath};
use crate::frontend::parser::decl::{parse_u64, parse_u64_spec};
use crate::text::{concat2, concat3, has_prefix, starts_with, str_eq, suffix_from};
use crate::frontend::parser::decl::{all_digits, digits_value};
use crate::frontend::resolve::module::Import;
use vstd::prelude::*;

verus! {

/// The digits of an error code as written: `E4001`, `e4001` or `4001`.
pub open spec fn code_digits(raw: Seq<char>) -> Seq<char> {
    if raw.len() > 0 && (raw[0] == 'E' || raw[0] == 'e') {
        raw.skip(1)
    } else {
        raw
    }
}

/// The error code written as `raw`, if it is one: at least one ASCII digit
/// after an optional `E` or `e`, and a value that fits in `u16`.
pub open spec fn code_value(raw: Seq<char>) -> Option<u16> {
    let d = code_digits(raw);
    if d.len() == 0 || !all_digits(d) || digits_value(d) > u16::MAX {
        None
    } else {
        Some(digits_value(d) as u16)
    }
}

/// An error code reads the same with or without its leading `E` (or `e`).
pub proof fn law_code_prefix_optional(digits: Seq<char>)
    requires
        digits.len() > 0 ==> digits[0] != 'E' && digits[0] != 'e',
    ensures
        code_value(seq!['E'] + digits) == code_value(digits),
        code_value(seq!['e'] + digits) == code_value(digits),
{
    assert((seq!['E'] + digits).skip(1) =~= digits);
    assert((seq!['e'] + digits).skip(1) =~= digits);
}

/// Reads an error code written `E4001` or `4001`.
pub fn parse_code(raw: &str) -> (r: Option<u16>)
    ensures
        r == code_value(raw@),
{
    let n = raw.unicode_len();
    let skip: usize = if n > 0 && (raw.get_char(0) == 'E' || raw.get_char(0) == 'e') {
        1
    } else {
        0
    };
    let ghost d = code_digits(raw@);
    proof {
        if skip == 0 {
            assert(d =~= raw@.skip(0));
        }
    }
    if skip == n {
        return None;
    }
    let mut v: u32 = 0;
    let mut i: usize = skip;
    while i < n
        invariant
            n == raw@.len(),
            skip <= i <= n,
            d == raw@.skip(skip as int),
            d == code_digits(raw@),
            all_digits(d.subrange(0, i - skip)),
            v as nat == digits_value(d.subrange(0, i - skip)),
            v <= u16::MAX,
        decreases n - i,
    {
        let c = raw.get_char(i);
        let ghost k = i - skip;
        proof {
            assert(d[k] == c);
            assert(d.subrange(0, k + 1).drop_last() =~= d.subrange(0, k));
        }
        if !('0' <= c && c <= '9') {
            proof {
                assert(!all_digits(d));
            }
            return None;
        }
        let digit: u32 = c as u32 - 48;
        proof {
            assert forall|j: int| 0 <= j < k + 1 implies '0' <= #[trigger] d.subrange(0, k + 1)[j] <= '9' by {
                if j < k {
                    assert(d.subrange(0, k + 1)[j] == d.subrange(0, k)[j]);
                }
            }
        }
        let next = v * 10 + digit;
        if next > 65535 {
            proof {
                assert(digits_value(d.subrange(0, k + 1)) > u16::MAX);
                if all_digits(d) {
                    crate::frontend::parser::decl::lemma_digits_prefix_bound(d, k + 1);
                }
            }
            return None;
        }
        v = next;
        i = i + 1;
    }
    proof {
        assert(d.subrange(0, (n - skip) as int) =~= d);
    }
    Some(v as u16)
}

/// The `use` paths of a module's items, in order.
pub open spec fn uses_of(items: Seq<Item>) -> Seq<UsePath>
    decreases items.len(),
{
    if items.len() == 0 {
        Seq::empty()
    } else {
        uses_of(items.drop_last()) + match items.last() {
            Item::Use(u) => seq![u],
            _ => Seq::empty(),
        }
    }
}

/// The import a `use` path makes: it imports its last segment, or the
/// empty name when it has none.
pub open spec fn import_of(u: UsePath, i: Import) -> bool {
    &&& i.imported_name@ == (if u.segments@.len() > 0 {
        u.segments@.last()@
    } else {
        Seq::empty()
    })
    &&& i.segments@ == u.segments@
    &&& i.span == u.span
}

/// The imports of a module: one for each `use`, in order.
pub fn extract_imports(module: &Module) -> (imports: Vec<Import>)
    ensures
        imports@.len() == uses_of(module.items@).len(),
        forall|k: int| 0 <= k < imports@.len() ==> import_of(uses_of(module.items@)[k], #[trigger] imports@[k]),
{
    let mut imports: Vec<Import> = Vec::new();
    let mut i: usize = 0;
    while i < module.items.len()
        invariant
            i <= module.items@.len(),
            imports@.len() == uses_of(module.items@.take(i as int)).len(),
            forall|k: int|
                0 <= k < imports@.len() ==> import_of(uses_of(module.items@.take(i as int))[k], #[trigger] imports@[k]),
        decreases module.items@.len() - i,
    {
        let ghost before = uses_of(module.items@.take(i as int));
        proof {
            assert(module.items@.take(i + 1).drop_last() =~= module.items@.take(i as int));
        }
        match &module.items[i] {
            Item::Use(use_path) => {
                let imported_name = if use_path.segments.len() > 0 {
                    use_path.segments[use_path.segments.len() - 1].clone()
                } else {
                    String::new()
                };
                let mut segments: Vec<String> = Vec::new();
                let mut k: usize = 0;
                while k < use_path.segments.len()
                    invariant
                        k <= use_path.segments@.len(),
                        segments@ == use_path.segments@.take(k as int),
                    decreases use_path.segments@.len() - k,
                {
                    segments.push(use_path.segments[k].clone());
                    k = k + 1;
                    proof {
                        assert(segments@ =~= use_path.segments@.take(k as int));
                    }
                }
                proof {
                    assert(use_path.segments@.take(k as int) =~= use_path.segments@);
                }
                let ghost old_imports = imports@;
                imports.push(Import { imported_name, segments, span: use_path.span });
                proof {
                    assert(uses_of(module.items@.take(i + 1)) =~= before.push(*use_path));
                    assert forall|k: int|
                        0 <= k < imports@.len() implies import_of(uses_of(module.items@.take(i + 1))[k], #[trigger] imports@[k]) by {
                        if k < old_imports.len() {
                            assert(imports@[k] == old_imports[k]);
                        }
                    }
                }
            },
            _ => {
                proof {
                    assert(uses_of(module.items@.take(i + 1)) =~= before);
                }
            },
        }
        i = i + 1;
    }
    proof {
        assert(module.items@.take(i as int) =~= module.items@);
    }
    imports
}

/// What the command line asks for.
pub struct Options {
    pub inputs: Vec<String>,
    pub error_format: ErrorFormat,
    pub error_limit: u32,
    pub emit: Vec<String>,
    pub emit_spans: bool,
    pub output: Option<String>,
    pub time_passes: bool,
    pub stats: bool,
    pub verify_test_annotations: bool,
    pub debug_trace: bool,
}

/// The options as plain values.
pub struct OptionsView {
    pub inputs: Seq<Seq<char>>,
    pub error_format: ErrorFormat,
    pub error_limit: u32,
    pub emit: Seq<Seq<char>>,
    pub emit_spans: bool,
    pub output: Option<Seq<char>>,
    pub time_passes: bool,
    pub stats: bool,
    pub verify_test_annotations: bool,
    pub debug_trace: bool,
}

pub open spec fn texts(v: Seq<String>) -> Seq<Seq<char>> {
    v.map_values(|s: String| s@)
}

impl View for Options {
    type V = OptionsView;

    open spec fn view(&self) -> OptionsView {
        OptionsView {
            inputs: texts(self.inputs@),
            error_format: self.error_format,
            error_limit: self.error_limit,
            emit: texts(self.emit@),
            emit_spans: self.emit_spans,
            output: match self.output {
                Some(o) => Some(o@),
                None => None,
            },
            time_passes: self.time_passes,
            stats: self.stats,
            verify_test_annotations: self.verify_test_annotations,
            debug_trace: self.debug_trace,
        }
    }
}

/// The options before any argument is read.
pub open spec fn default_options() -> OptionsView {
    OptionsView {
        inputs: Seq::empty(),
        error_format: ErrorFormat::Human,
        error_limit: DEFAULT_ERROR_LIMIT,
        emit: Seq::empty(),
        emit_spans: false,
        output: None,
        time_passes: false,
        stats: false,
        verify_test_annotations: false,
        debug_trace: false,
    }
}

impl Default for Options {
    fn default() -> (o: Options)
        ensures
            o@ == default_options(),
    {
        let o = Options {
            inputs: Vec::new(),
            error_format: ErrorFormat::Human,
            error_limit: DEFAULT_ERROR_LIMIT,
            emit: Vec::new(),
            emit_spans: false,
            output: None,
            time_passes: false,
            stats: false,
            verify_test_annotations: false,
            debug_trace: false,
        };
        proof {
            assert(texts(o.inputs@) =~= Seq::<Seq<char>>::empty());
            assert(texts(o.emit@) =~= Seq::<Seq<char>>::empty());
        }
        o
    }
}

/// The outcome of reading the arguments. `Explain` and `Help` leave before
/// any compiling.
pub enum Action {
    Compile(Options),
    Explain(u16),
    Help,
    Usage(String),
}

/// The outcome as plain values.
pub enum ActionView {
    Compile(OptionsView),
    Explain(u16),
    Help,
    Usage(Seq<char>),
}

impl View for Action {
    type V = ActionView;

    open spec fn view(&self) -> ActionView {
        match self {
            Action::Compile(o) => ActionView::Compile(o@),
            Action::Explain(c) => ActionView::Explain(*c),
            Action::Help => ActionView::Help,
            Action::Usage(m) => ActionView::Usage(m@),
        }
    }
}

/// The stages `--emit=` can dump.
pub open spec fn is_emit_stage(v: Seq<char>) -> bool {
    ||| v == "tokens"@
    ||| v == "ast"@
    ||| v == "resolved"@
    ||| v == "typed"@
    ||| v == "ir"@
    ||| v == "llvm-ir"@
    ||| v == "asm"@
    ||| v == "obj"@
}

/// Whether `v` names a stage `--emit=` can dump.
pub fn is_emit_stage_name(v: &str) -> (b: bool)
    ensures
        b == is_emit_stage(v@),
{
    str_eq(v, "tokens") || str_eq(v, "ast") || str_eq(v, "resolved") || str_eq(v, "typed") || str_eq(v, "ir")
        || str_eq(v, "llvm-ir") || str_eq(v, "asm") || str_eq(v, "obj")
}

/// The `u32` written as `v`, as `str::parse::<u32>` reads it.
pub open spec fn u32_value(v: Seq<char>) -> Option<u32> {
    match parse_u64_spec(v) {
        Some(n) => if n <= u32::MAX {
            Some(n as u32)
        } else {
            None
        },
        None => None,
    }
}

/// The checks made once every argument is read: at least one input, and an
/// output directory when more than one stage is dumped.
pub open spec fn finish_options(o: OptionsView) -> ActionView {
    if o.inputs.len() == 0 {
        ActionView::Usage("未指定源文件"@)
    } else if o.emit.len() > 1 && o.output is None {
        ActionView::Usage("`--emit` 指定多个阶段时必须用 `-o` 指定输出目录"@)
    } else {
        ActionView::Compile(o)
    }
}

/// Reads `args` from position `i` on, with the options `o` read so far.
pub open spec fn scan_args(args: Seq<Seq<char>>, i: int, o: OptionsView) -> ActionView
    decreases args.len() - i,
{
    if i >= args.len() || i < 0 {
        finish_options(o)
    } else {
        let a = args[i];
        if a == "-h"@ || a == "--help"@ {
            ActionView::Help
        } else if a == "--emit-spans"@ {
            scan_args(args, i + 1, OptionsView { emit_spans: true, ..o })
        } else if a == "--time-passes"@ {
            scan_args(args, i + 1, OptionsView { time_passes: true, ..o })
        } else if a == "--stats"@ {
            scan_args(args, i + 1, OptionsView { stats: true, ..o })
        } else if a == "--verify-test-annotations"@ {
            scan_args(args, i + 1, OptionsView { verify_test_annotations: true, ..o })
        } else if a == "--debug-trace"@ {
            scan_args(args, i + 1, OptionsView { debug_trace: true, ..o })
        } else if a == "-o"@ {
            if i + 1 < args.len() {
                scan_args(args, i + 2, OptionsView { output: Some(args[i + 1]), ..o })
            } else {
                ActionView::Usage("`-o` 缺少路径"@)
            }
        } else if a == "--explain"@ {
            if i + 1 < args.len() {
                match code_value(args[i + 1]) {
                    Some(c) => ActionView::Explain(c),
                    None => ActionView::Usage("无法识别的错误码："@ + args[i + 1]),
                }
            } else {
                ActionView::Usage("`--explain` 缺少错误码"@)
            }
        } else if has_prefix(a, "--error-format="@) {
            let v = a.skip("--error-format="@.len() as int);
            match format_named(v) {
                Some(f) => scan_args(args, i + 1, OptionsView { error_format: f, ..o }),
                None => ActionView::Usage("未知的 --error-format 取值："@ + v + "（可选 human|json|short）"@),
            }
        } else if has_prefix(a, "--error-limit="@) {
            let v = a.skip("--error-limit="@.len() as int);
            match u32_value(v) {
                Some(n) => scan_args(args, i + 1, OptionsView { error_limit: n, ..o }),
                None => ActionView::Usage("--error-limit 需要非负整数，得到："@ + v),
            }
        } else if has_prefix(a, "--emit="@) {
            let v = a.skip("--emit="@.len() as int);
            if is_emit_stage(v) {
                scan_args(args, i + 1, OptionsView { emit: o.emit.push(v), ..o })
            } else {
                ActionView::Usage(
                    "未知的 --emit 阶段："@ + v + "（可选 tokens|ast|resolved|typed|ir|llvm-ir|asm|obj）"@,
                )
            }
        } else if a.len() > 0 && a[0] == '-' {
            ActionView::Usage("未知选项："@ + a)
        } else {
            scan_args(args, i + 1, OptionsView { inputs: o.inputs.push(a), ..o })
        }
    }
}

/// What a command line asks for: help when it is empty, else the options
/// read left to right, or the first complaint about them.
pub open spec fn args_action(args: Seq<Seq<char>>) -> ActionView {
    if args.len() == 0 {
        ActionView::Help
    } else {
        scan_args(args, 0, default_options())
    }
}

/// Reads the command-line arguments (without the program name).
pub fn parse_args(args: &[String]) -> (r: Action)
    ensures
        r@ == args_action(texts(args@)),
{
    let ghost all = texts(args@);
    if args.len() == 0 {
        return Action::Help;
    }
    let mut o = Options::default();
    let mut i: usize = 0;
    while i < args.len()
        invariant
            all == texts(args@),
            i <= args@.len(),
            args@.len() > 0,
            args_action(all) == scan_args(all, i as int, o@),
        decreases args@.len() - i,
    {
        let a = args[i].as_str();
        assert(a@ == all[i as int]);
        if str_eq(a, "-h") || str_eq(a, "--help") {
            return Action::Help;
        } else if str_eq(a, "--emit-spans") {
            o.emit_spans = true;
        } else if str_eq(a, "--time-passes") {
            o.time_passes = true;
        } else if str_eq(a, "--stats") {
            o.stats = true;
        } else if str_eq(a, "--verify-test-annotations") {
            o.verify_test_annotations = true;
        } else if str_eq(a, "--debug-trace") {
            o.debug_trace = true;
        } else if str_eq(a, "-o") {
            if i + 1 < args.len() {
                assert(args[i + 1]@ == all[i + 1]);
                o.output = Some(args[i + 1].clone());
                i = i + 1;
            } else {
                return Action::Usage(String::from_str("`-o` 缺少路径"));
            }
        } else if str_eq(a, "--explain") {
            if i + 1 < args.len() {
                let raw = args[i + 1].as_str();
                assert(raw@ == all[i + 1]);
                return match parse_code(raw) {
                    Some(c) => Action::Explain(c),
                    None => Action::Usage(concat2("无法识别的错误码：", raw)),
                };
            } else {
                return Action::Usage(String::from_str("`--explain` 缺少错误码"));
            }
        } else if starts_with(a, "--error-format=") {
            let v = suffix_from(a, "--error-format=".unicode_len());
            match ErrorFormat::parse(v.as_str()) {
                Some(f) => o.error_format = f,
                None => {
                    return Action::Usage(concat3("未知的 --error-format 取值：", v.as_str(), "（可选 human|json|short）"));
                },
            }
        } else if starts_with(a, "--error-limit=") {
            let v = suffix_from(a, "--error-limit=".unicode_len());
            match parse_u64(v.as_str()) {
                Some(n) => {
                    if n <= 4294967295 {
                        o.error_limit = n as u32;
                    } else {
                        return Action::Usage(concat2("--error-limit 需要非负整数，得到：", v.as_str()));
                    }
                },
                None => {
                    return Action::Usage(concat2("--error-limit 需要非负整数，得到：", v.as_str()));
                },
            }
        } else if starts_with(a, "--emit=") {
            let v = suffix_from(a, "--emit=".unicode_len());
            if is_emit_stage_name(v.as_str()) {
                let ghost before = o.emit@;
                o.emit.push(v);
                proof {
                    assert(texts(o.emit@) =~= texts(before).push(all[i as int].skip("--emit="@.len() as int)));
                }
            } else {
                return Action::Usage(
                    concat3("未知的 --emit 阶段：", v.as_str(), "（可选 tokens|ast|resolved|typed|ir|llvm-ir|asm|obj）"),
                );
            }
        } else if a.unicode_len() > 0 && a.get_char(0) == '-' {
            return Action::Usage(concat2("未知选项：", a));
        } else {
            let ghost before = o.inputs@;
            o.inputs.push(args[i].clone());
            proof {
                assert(texts(o.inputs@) =~= texts(before).push(all[i as int]));
            }
        }
        i = i + 1;
    }
    if o.inputs.len() == 0 {
        return Action::Usage(String::from_str("未指定源文件"));
    }
    if o.emit.len() > 1 && o.output.is_none() {
        return Action::Usage(String::from_str("`--emit` 指定多个阶段时必须用 `-o` 指定输出目录"));
    }
    Action::Compile(o)
}

} // verus!
