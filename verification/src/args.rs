//! The command line: commands, flags and operands.
use vstd::prelude::*;
use vstd::string::*;

use crate::scope;
use crate::text;
use crate::text::{contains_string, push_decimal, str_eq};
use crate::words;
use crate::words::{drop_suffix, has_prefix, has_suffix, parse_integer, split_parts};

verus! {

// ---- commands -----------------------------------------------------------------------------------------

/// What the first argument asks for.
#[derive(Debug, PartialEq, Eq)]
pub enum Command {
    Missing,
    Help,
    Fmt,
    Check,
    Build,
    Run,
    ResolveImpl,
    Verify,
    Commit,
    Store,
    Unknown(String),
}

/// What an argument list asks for.
pub open spec fn is_command(args: Seq<Seq<char>>, c: Command) -> bool {
    if args.len() == 0 {
        c is Missing
    } else {
        let a = args[0];
        if a == "-h"@ || a == "--help"@ || a == "help"@ {
            c is Help
        } else if a == "fmt"@ {
            c is Fmt
        } else if a == "check"@ {
            c is Check
        } else if a == "build"@ {
            c is Build
        } else if a == "run"@ {
            c is Run
        } else if a == "resolve-impl"@ {
            c is ResolveImpl
        } else if a == "verify"@ {
            c is Verify
        } else if a == "commit"@ {
            c is Commit
        } else if a == "store"@ {
            c is Store
        } else {
            c is Unknown && c->Unknown_0@ == a
        }
    }
}

/// The command that an argument list starts with.
pub fn command_of(args: &Vec<String>) -> (r: Command)
    ensures
        is_command(text::strings_view(args@), r),
{
    if args.len() == 0 {
        return Command::Missing;
    }
    assert(text::strings_view(args@)[0] == args@[0]@);
    let a = args[0].as_str();
    if str_eq(a, "-h") || str_eq(a, "--help") || str_eq(a, "help") {
        Command::Help
    } else if str_eq(a, "fmt") {
        Command::Fmt
    } else if str_eq(a, "check") {
        Command::Check
    } else if str_eq(a, "build") {
        Command::Build
    } else if str_eq(a, "run") {
        Command::Run
    } else if str_eq(a, "resolve-impl") {
        Command::ResolveImpl
    } else if str_eq(a, "verify") {
        Command::Verify
    } else if str_eq(a, "commit") {
        Command::Commit
    } else if str_eq(a, "store") {
        Command::Store
    } else {
        Command::Unknown(a.to_owned())
    }
}

/// Whether an argument is a flag.
pub open spec fn is_flag(a: Seq<char>) -> bool {
    words::starts(a, "--"@)
}

// ---- build and run --------------------------------------------------------------------------------------

/// The flags and operands of `build` and `run`.
#[derive(Debug, PartialEq, Eq)]
pub struct Invocation {
    pub target: String,
    pub run: bool,
    /// Leave out the checks of a debug build.
    pub release: bool,
    pub entry: String,
    pub grant: Vec<String>,
    /// Where the artifact goes.
    pub out: Option<String>,
    /// The kind of a native artifact.
    pub emit: Option<String>,
    /// The content store that imports are resolved through.
    pub store_dir: Option<String>,
    pub file: Option<String>,
    pub args: Vec<String>,
}

/// The mathematical counterpart of [`Invocation`].
#[verifier::ext_equal]
pub struct InvView {
    pub target: Seq<char>,
    pub run: bool,
    pub release: bool,
    pub entry: Seq<char>,
    pub grant: Seq<Seq<char>>,
    pub out: Option<Seq<char>>,
    pub emit: Option<Seq<char>>,
    pub store_dir: Option<Seq<char>>,
    pub file: Option<Seq<char>>,
    pub args: Seq<Seq<char>>,
}

impl View for Invocation {
    type V = InvView;

    open spec fn view(&self) -> InvView {
        InvView {
            target: self.target@,
            run: self.run,
            release: self.release,
            entry: self.entry@,
            grant: text::strings_view(self.grant@),
            out: scope::opt_string_view(self.out),
            emit: scope::opt_string_view(self.emit),
            store_dir: scope::opt_string_view(self.store_dir),
            file: scope::opt_string_view(self.file),
            args: text::strings_view(self.args@),
        }
    }
}

/// An invocation without flags or operands.
pub open spec fn no_args() -> InvView {
    InvView {
        target: "native-cranelift"@,
        run: false,
        release: false,
        entry: Seq::empty(),
        grant: Seq::empty(),
        out: None,
        emit: None,
        store_dir: None,
        file: None,
        args: Seq::empty(),
    }
}

/// A flag that takes a value.
#[derive(Clone, Copy, PartialEq, Eq, Structural)]
pub enum Flag {
    Target,
    Emit,
    Out,
    Store,
    Entry,
    Grant,
}

/// The flag that an argument is, if it takes a value.
pub open spec fn flag_of(a: Seq<char>) -> Option<Flag> {
    if a == "--target"@ {
        Some(Flag::Target)
    } else if a == "--emit"@ {
        Some(Flag::Emit)
    } else if a == "--out"@ || a == "-o"@ {
        Some(Flag::Out)
    } else if a == "--store"@ {
        Some(Flag::Store)
    } else if a == "--entry"@ {
        Some(Flag::Entry)
    } else if a == "--grant"@ {
        Some(Flag::Grant)
    } else {
        None
    }
}

/// How a flag is written.
pub open spec fn flag_text(f: Flag) -> Seq<char> {
    match f {
        Flag::Target => "--target"@,
        Flag::Emit => "--emit"@,
        Flag::Out => "--out"@,
        Flag::Store => "--store"@,
        Flag::Entry => "--entry"@,
        Flag::Grant => "--grant"@,
    }
}

/// An invocation with the value of a flag.
pub open spec fn with_flag(inv: InvView, f: Flag, v: Seq<char>) -> InvView {
    match f {
        Flag::Target => InvView { target: v, ..inv },
        Flag::Emit => InvView { emit: Some(v), ..inv },
        Flag::Out => InvView { out: Some(v), ..inv },
        Flag::Store => InvView { store_dir: Some(v), ..inv },
        Flag::Entry => InvView { entry: v, ..inv },
        Flag::Grant => InvView { grant: inv.grant + words::parts(v, ','), ..inv },
    }
}

/// An invocation with one more operand: the first one is the file.
pub open spec fn with_operand(inv: InvView, a: Seq<char>) -> InvView {
    if inv.file is None {
        InvView { file: Some(a), ..inv }
    } else {
        InvView { args: inv.args.push(a), ..inv }
    }
}

/// The invocation that the arguments from `i` on complete. After a literal `--`
/// (then `only`) all are operands of the program.
pub open spec fn invoked(args: Seq<Seq<char>>, i: int, only: bool, inv: InvView) -> Result<
    InvView,
    Seq<char>,
>
    decreases args.len() - i,
{
    if i >= args.len() {
        Ok(inv)
    } else {
        let a = args[i];
        if only {
            invoked(args, i + 1, true, InvView { args: inv.args.push(a), ..inv })
        } else if a == "--"@ {
            invoked(args, i + 1, true, inv)
        } else if a == "--run"@ {
            invoked(args, i + 1, false, InvView { run: true, ..inv })
        } else if a == "--release"@ {
            invoked(args, i + 1, false, InvView { release: true, ..inv })
        } else if flag_of(a) is Some {
            let f = flag_of(a)->0;
            if i + 1 < args.len() {
                invoked(args, i + 2, false, with_flag(inv, f, args[i + 1]))
            } else {
                Err(flag_text(f) + " requires a value"@)
            }
        } else if is_flag(a) {
            Err("unknown flag `"@ + a + "`"@)
        } else {
            invoked(args, i + 1, false, with_operand(inv, a))
        }
    }
}

fn find_flag(a: &str) -> (r: Option<Flag>)
    ensures
        r == flag_of(a@),
{
    if str_eq(a, "--target") {
        Some(Flag::Target)
    } else if str_eq(a, "--emit") {
        Some(Flag::Emit)
    } else if str_eq(a, "--out") || str_eq(a, "-o") {
        Some(Flag::Out)
    } else if str_eq(a, "--store") {
        Some(Flag::Store)
    } else if str_eq(a, "--entry") {
        Some(Flag::Entry)
    } else if str_eq(a, "--grant") {
        Some(Flag::Grant)
    } else {
        None
    }
}

fn flag_name(f: Flag) -> (r: &'static str)
    ensures
        r@ == flag_text(f),
{
    match f {
        Flag::Target => "--target",
        Flag::Emit => "--emit",
        Flag::Out => "--out",
        Flag::Store => "--store",
        Flag::Entry => "--entry",
        Flag::Grant => "--grant",
    }
}

/// The value that follows a flag at position `i`.
fn take_value(args: &Vec<String>, i: usize, flag: &str) -> (r: Result<String, String>)
    requires
        i < args@.len(),
    ensures
        match r {
            Ok(v) => i + 1 < args@.len() && v@ == args@[i + 1]@,
            Err(e) => i + 1 >= args@.len() && e@ == flag@ + " requires a value"@,
        },
{
    if args.len() - i > 1 {
        Ok(args[i + 1].clone())
    } else {
        let mut e = flag.to_owned();
        e.append(" requires a value");
        Err(e)
    }
}

fn set_flag(inv: &mut Invocation, f: Flag, v: String)
    ensures
        final(inv)@ == with_flag(old(inv)@, f, v@),
{
    match f {
        Flag::Target => {
            inv.target = v;
        },
        Flag::Emit => {
            inv.emit = Some(v);
        },
        Flag::Out => {
            inv.out = Some(v);
        },
        Flag::Store => {
            inv.store_dir = Some(v);
        },
        Flag::Entry => {
            inv.entry = v;
        },
        Flag::Grant => {
            let mut more = split_parts(v.as_str(), ',');
            let ghost a = inv.grant@;
            let ghost b = more@;
            inv.grant.append(&mut more);
            assert(text::strings_view(inv.grant@) =~= text::strings_view(a) + text::strings_view(b));
        },
    }
}

/// Read the flags and operands of `build` or `run`.
pub fn parse_invocation(args: &Vec<String>) -> (r: Result<Invocation, String>)
    ensures
        match invoked(text::strings_view(args@), 0, false, no_args()) {
            Ok(inv) => r is Ok && r->Ok_0@ == inv,
            Err(e) => r is Err && r->Err_0@ == e,
        },
{
    let ghost v = text::strings_view(args@);
    let mut inv = Invocation {
        target: "native-cranelift".to_owned(),
        run: false,
        release: false,
        entry: String::new(),
        grant: Vec::new(),
        out: None,
        emit: None,
        store_dir: None,
        file: None,
        args: Vec::new(),
    };
    assert(inv@ =~= no_args());
    let mut only = false;
    let mut i: usize = 0;
    while i < args.len()
        invariant
            i <= args@.len(),
            v == text::strings_view(args@),
            invoked(v, i as int, only, inv@) == invoked(v, 0, false, no_args()),
        decreases args@.len() - i,
    {
        let a = args[i].as_str();
        assert(v[i as int] == a@);
        let ghost before = inv@;
        if only {
            inv.args.push(args[i].clone());
            assert(inv@.args =~= before.args.push(a@));
        } else if str_eq(a, "--") {
            only = true;
        } else if str_eq(a, "--run") {
            inv.run = true;
        } else if str_eq(a, "--release") {
            inv.release = true;
        } else {
            match find_flag(a) {
                Some(f) => {
                    let value = match take_value(args, i, flag_name(f)) {
                        Ok(x) => x,
                        Err(e) => {
                            return Err(e);
                        },
                    };
                    assert(v[i + 1] == value@);
                    set_flag(&mut inv, f, value);
                    i = i + 1;
                },
                None => {
                    if has_prefix(a, "--") {
                        return Err({
                            let mut x = "unknown flag `".to_owned();
                            x.append(a);
                            x.append("`");
                            x
                        });
                    }
                    if inv.file.is_none() {
                        inv.file = Some(args[i].clone());
                    } else {
                        inv.args.push(args[i].clone());
                        assert(inv@.args =~= before.args.push(a@));
                    }
                },
            }
        }
        i = i + 1;
    }
    Ok(inv)
}

/// What the first `n` arguments of a program spell, or the first one that is no
/// integer.
pub open spec fn integers_of(v: Seq<Seq<char>>, n: nat) -> Result<Seq<i64>, Seq<char>>
    decreases n,
{
    if n == 0 {
        Ok(Seq::empty())
    } else {
        match integers_of(v, (n - 1) as nat) {
            Ok(out) => match words::integer_of(v[n - 1]) {
                Some(x) => Ok(out.push(x)),
                None => Err(
                    "argument "@ + text::decimal((n - 1) as nat) + " `"@ + v[n - 1]
                        + "` is not an integer"@,
                ),
            },
            Err(e) => Err(e),
        }
    }
}

proof fn lemma_integers_fail(v: Seq<Seq<char>>, i: nat, n: nat)
    requires
        i <= n,
        integers_of(v, i) is Err,
    ensures
        integers_of(v, n) == integers_of(v, i),
    decreases n - i,
{
    if i < n {
        assert(integers_of(v, i + 1) == integers_of(v, i));
        lemma_integers_fail(v, i + 1, n);
    }
}

/// The arguments of an entry of that arity, as integers.
pub fn parse_int_args(args: &Vec<String>, arity: usize) -> (r: Result<Vec<i64>, String>)
    ensures
        args@.len() != arity ==> r is Err && r->Err_0@ == "entry expects "@ + text::decimal(arity as nat)
            + " integer argument(s), got "@ + text::decimal(args@.len()),
        args@.len() == arity ==> match integers_of(text::strings_view(args@), args@.len()) {
            Ok(v) => r is Ok && r->Ok_0@ == v,
            Err(e) => r is Err && r->Err_0@ == e,
        },
{
    let n = args.len();
    if n != arity {
        return Err({
            let mut x = "entry expects ".to_owned();
            push_decimal(&mut x, arity as u64);
            x.append(" integer argument(s), got ");
            push_decimal(&mut x, n as u64);
            x
        });
    }
    let ghost v = text::strings_view(args@);
    let mut out: Vec<i64> = Vec::new();
    let mut i: usize = 0;
    assert(out@ =~= Seq::empty());
    while i < args.len()
        invariant
            i <= args@.len(),
            args@.len() == arity,
            v == text::strings_view(args@),
            integers_of(v, i as nat) == Ok::<Seq<i64>, Seq<char>>(out@),
        decreases args@.len() - i,
    {
        let a = args[i].as_str();
        assert(v[i as int] == a@);
        match parse_integer(a) {
            Some(x) => {
                out.push(x);
            },
            None => {
                let e = {
                    let mut x = "argument ".to_owned();
                    push_decimal(&mut x, i as u64);
                    x.append(" `");
                    x.append(a);
                    x.append("` is not an integer");
                    x
                };
                proof {
                    assert(integers_of(v, (i + 1) as nat) is Err);
                    lemma_integers_fail(v, (i + 1) as nat, args@.len());
                }
                return Err(e);
            },
        }
        i = i + 1;
    }
    Ok(out)
}

// ---- what to build ---------------------------------------------------------------------------------------

/// A backend.
#[derive(Debug, Clone, Copy, PartialEq, Eq, Structural)]
pub enum Target {
    NativeCranelift,
    NativeLlvm,
    /// A component, given by the core module that it is made from.
    WasmComponent,
    /// A core module.
    WasmCore,
}

/// The backend of that name.
pub open spec fn target_named(name: Seq<char>) -> Option<Target> {
    if name == "native-cranelift"@ {
        Some(Target::NativeCranelift)
    } else if name == "native-llvm"@ || name == "llvm"@ {
        Some(Target::NativeLlvm)
    } else if name == "wasm-component"@ || name == "wasm"@ {
        Some(Target::WasmComponent)
    } else if name == "wasm-core"@ {
        Some(Target::WasmCore)
    } else {
        None
    }
}

/// The backend of that name.
pub fn target_of(name: &str) -> (r: Result<Target, String>)
    ensures
        match target_named(name@) {
            Some(t) => r == Ok::<Target, String>(t),
            None => r is Err && r->Err_0@ == "unsupported target `"@ + name@
                + "` (have `native-cranelift`, `native-llvm`, `wasm-component`, `wasm-core`)"@,
        },
{
    if str_eq(name, "native-cranelift") {
        Ok(Target::NativeCranelift)
    } else if str_eq(name, "native-llvm") || str_eq(name, "llvm") {
        Ok(Target::NativeLlvm)
    } else if str_eq(name, "wasm-component") || str_eq(name, "wasm") {
        Ok(Target::WasmComponent)
    } else if str_eq(name, "wasm-core") {
        Ok(Target::WasmCore)
    } else {
        Err({
            let mut x = "unsupported target `".to_owned();
            x.append(name);
            x.append("` (have `native-cranelift`, `native-llvm`, `wasm-component`, `wasm-core`)");
            x
        })
    }
}

/// The kind of a native artifact.
#[derive(Debug, Clone, Copy, PartialEq, Eq, Structural)]
pub enum NativeEmit {
    Object,
    Executable,
}

/// The native artifact that an invocation asks for, if it asks for one.
pub open spec fn native_emit(inv: InvView) -> Result<Option<NativeEmit>, Seq<char>> {
    if inv.run && (inv.out is Some || inv.emit is Some) {
        Err("--run cannot be combined with native --out/--emit AOT output"@)
    } else {
        match inv.emit {
            Some(kind) => if kind == "object"@ {
                Ok(Some(NativeEmit::Object))
            } else if kind == "exe"@ || kind == "executable"@ {
                Ok(Some(NativeEmit::Executable))
            } else {
                Err("unsupported native --emit `"@ + kind + "` (have `object`, `exe`)"@)
            },
            None => if inv.out is Some {
                Ok(Some(NativeEmit::Executable))
            } else {
                Ok(None)
            },
        }
    }
}

/// The native artifact that an invocation asks for, if it asks for one.
pub fn native_emit_kind(inv: &Invocation) -> (r: Result<Option<NativeEmit>, String>)
    ensures
        match native_emit(inv@) {
            Ok(k) => r == Ok::<Option<NativeEmit>, String>(k),
            Err(e) => r is Err && r->Err_0@ == e,
        },
{
    if inv.run && (inv.out.is_some() || inv.emit.is_some()) {
        return Err("--run cannot be combined with native --out/--emit AOT output".to_owned());
    }
    match &inv.emit {
        Some(kind) => {
            let kind = kind.as_str();
            if str_eq(kind, "object") {
                Ok(Some(NativeEmit::Object))
            } else if str_eq(kind, "exe") || str_eq(kind, "executable") {
                Ok(Some(NativeEmit::Executable))
            } else {
                Err({
                    let mut x = "unsupported native --emit `".to_owned();
                    x.append(kind);
                    x.append("` (have `object`, `exe`)");
                    x
                })
            }
        },
        None => {
            if inv.out.is_some() {
                Ok(Some(NativeEmit::Executable))
            } else {
                Ok(None)
            }
        },
    }
}

/// What the LLVM backend refuses of an invocation.
pub open spec fn llvm_refused(inv: InvView) -> Option<Seq<char>> {
    if inv.emit is Some {
        Some("native-llvm does not support --emit yet (use --run or --out)"@)
    } else if inv.run && inv.out is Some {
        Some("--run cannot be combined with native-llvm --out"@)
    } else {
        None
    }
}

/// What the LLVM backend refuses of an invocation.
pub fn check_llvm(inv: &Invocation) -> (r: Result<(), String>)
    ensures
        match llvm_refused(inv@) {
            Some(e) => r is Err && r->Err_0@ == e,
            None => r is Ok,
        },
{
    if inv.emit.is_some() {
        return Err("native-llvm does not support --emit yet (use --run or --out)".to_owned());
    }
    if inv.run && inv.out.is_some() {
        return Err("--run cannot be combined with native-llvm --out".to_owned());
    }
    Ok(())
}

/// A file's name without what marks it as an input.
pub open spec fn base_of(file: Seq<char>) -> Seq<char> {
    match words::without_suffix(file, ".core.json"@) {
        Some(b) => b,
        None => match words::without_suffix(file, ".mv"@) {
            Some(b) => b,
            None => file,
        },
    }
}

/// A file's name without what marks it as an input.
pub fn input_base(file: &str) -> (r: &str)
    ensures
        r@ == base_of(file@),
{
    match drop_suffix(file, ".core.json") {
        Some(b) => b,
        None => match drop_suffix(file, ".mv") {
            Some(b) => b,
            None => file,
        },
    }
}

/// Where a WebAssembly module goes by default.
pub fn default_wasm_out(file: &str) -> (r: String)
    ensures
        r@ == base_of(file@) + ".wasm"@,
{
    let mut s = input_base(file).to_owned();
    s.append(".wasm");
    s
}

/// Where an object file goes by default.
pub fn default_object_out(file: &str) -> (r: String)
    ensures
        r@ == base_of(file@) + ".o"@,
{
    let mut s = input_base(file).to_owned();
    s.append(".o");
    s
}

/// Where an executable goes by default.
pub fn default_exe_out(file: &str, windows: bool) -> (r: String)
    ensures
        r@ == if windows {
            base_of(file@) + ".exe"@
        } else {
            base_of(file@)
        },
{
    let mut s = input_base(file).to_owned();
    if windows {
        s.append(".exe");
    }
    s
}

// ---- the other commands -----------------------------------------------------------------------------------

/// The value of the one flag of a command, and its file, from the arguments from
/// `i` on. The last value counts, and the first file.
pub open spec fn one_file(
    args: Seq<Seq<char>>,
    i: int,
    flag: Seq<char>,
    value: Option<Seq<char>>,
    file: Option<Seq<char>>,
) -> Result<(Option<Seq<char>>, Seq<char>), Seq<char>>
    decreases args.len() - i,
{
    if i >= args.len() {
        match file {
            Some(f) => Ok((value, f)),
            None => Err("expected a file"@),
        }
    } else {
        let a = args[i];
        if a == flag {
            if i + 1 < args.len() {
                one_file(args, i + 2, flag, Some(args[i + 1]), file)
            } else {
                Err(flag + " requires a value"@)
            }
        } else if is_flag(a) {
            Err("unknown flag `"@ + a + "`"@)
        } else if file is None {
            one_file(args, i + 1, flag, value, Some(a))
        } else {
            one_file(args, i + 1, flag, value, file)
        }
    }
}

/// Read the arguments of a command with one flag and one file.
pub fn parse_one_file(args: &Vec<String>, flag: &str) -> (r: Result<
    (Option<String>, String),
    String,
>)
    ensures
        match one_file(text::strings_view(args@), 0, flag@, None, None) {
            Ok((v, f)) => r is Ok && scope::opt_string_view((r->Ok_0).0) == v && (r->Ok_0).1@ == f,
            Err(e) => r is Err && r->Err_0@ == e,
        },
{
    let ghost v = text::strings_view(args@);
    let mut value: Option<String> = None;
    let mut file: Option<String> = None;
    let mut i: usize = 0;
    while i < args.len()
        invariant
            i <= args@.len(),
            v == text::strings_view(args@),
            one_file(
                v,
                i as int,
                flag@,
                scope::opt_string_view(value),
                scope::opt_string_view(file),
            ) == one_file(v, 0, flag@, None, None),
        decreases args@.len() - i,
    {
        let a = args[i].as_str();
        assert(v[i as int] == a@);
        if str_eq(a, flag) {
            let x = match take_value(args, i, flag) {
                Ok(x) => x,
                Err(e) => {
                    return Err(e);
                },
            };
            assert(v[i + 1] == x@);
            value = Some(x);
            i = i + 1;
        } else if has_prefix(a, "--") {
            return Err({
                let mut x = "unknown flag `".to_owned();
                x.append(a);
                x.append("`");
                x
            });
        } else if file.is_none() {
            file = Some(args[i].clone());
        }
        i = i + 1;
    }
    match file {
        Some(f) => Ok((value, f)),
        None => Err("expected a file".to_owned()),
    }
}

/// The directory of the store, from the arguments of `store` from `i` on.
pub open spec fn store_dir_s(args: Seq<Seq<char>>, i: int, dir: Seq<char>) -> Result<
    Seq<char>,
    Seq<char>,
>
    decreases args.len() - i,
{
    if i >= args.len() {
        Ok(dir)
    } else if args[i] == "--store"@ {
        if i + 1 < args.len() {
            store_dir_s(args, i + 2, args[i + 1])
        } else {
            Err("--store"@ + " requires a value"@)
        }
    } else if is_flag(args[i]) {
        Err("unknown flag `"@ + args[i] + "`"@)
    } else {
        Err("unexpected argument `"@ + args[i] + "`"@)
    }
}

/// Read the arguments of `store` after its action: the directory of the store.
pub fn parse_store_dir(args: &Vec<String>) -> (r: Result<String, String>)
    ensures
        match store_dir_s(text::strings_view(args@), 1, ".marv"@) {
            Ok(d) => r is Ok && r->Ok_0@ == d,
            Err(e) => r is Err && r->Err_0@ == e,
        },
{
    let ghost v = text::strings_view(args@);
    let mut dir = ".marv".to_owned();
    let mut i: usize = 1;
    while i < args.len()
        invariant
            i >= 1,
            v == text::strings_view(args@),
            store_dir_s(v, i as int, dir@) == store_dir_s(v, 1, ".marv"@),
        decreases args@.len() - i,
    {
        let a = args[i].as_str();
        assert(v[i as int] == a@);
        if str_eq(a, "--store") {
            let x = match take_value(args, i, "--store") {
                Ok(x) => x,
                Err(e) => {
                    return Err(e);
                },
            };
            assert(v[i + 1] == x@);
            dir = x;
            i = i + 1;
        } else if has_prefix(a, "--") {
            return Err({
                let mut x = "unknown flag `".to_owned();
                x.append(a);
                x.append("`");
                x
            });
        } else {
            return Err({
                let mut x = "unexpected argument `".to_owned();
                x.append(a);
                x.append("`");
                x
            });
        }
        i = i + 1;
    }
    Ok(dir)
}

/// What is done to a store.
#[derive(Debug, Clone, Copy, PartialEq, Eq, Structural)]
pub enum StoreAction {
    Audit,
    Gc,
}

/// The action of that name.
pub fn store_action(name: &str) -> (r: Result<StoreAction, String>)
    ensures
        if name@ == "audit"@ {
            r == Ok::<StoreAction, String>(StoreAction::Audit)
        } else if name@ == "gc"@ {
            r == Ok::<StoreAction, String>(StoreAction::Gc)
        } else {
            r is Err && r->Err_0@ == "unknown action `"@ + name@ + "` (expected `audit` or `gc`)"@
        },
{
    if str_eq(name, "audit") {
        Ok(StoreAction::Audit)
    } else if str_eq(name, "gc") {
        Ok(StoreAction::Gc)
    } else {
        Err({
            let mut x = "unknown action `".to_owned();
            x.append(name);
            x.append("` (expected `audit` or `gc`)");
            x
        })
    }
}

/// The first `n` arguments that are no flags.
pub open spec fn operands(args: Seq<Seq<char>>, n: nat) -> Seq<Seq<char>>
    decreases n,
{
    if n == 0 {
        Seq::empty()
    } else if is_flag(args[n - 1]) {
        operands(args, (n - 1) as nat)
    } else {
        operands(args, (n - 1) as nat).push(args[n - 1])
    }
}

/// The arguments that are no flags.
pub fn find_operands(args: &Vec<String>) -> (r: Vec<String>)
    ensures
        text::strings_view(r@) == operands(text::strings_view(args@), args@.len()),
{
    let ghost v = text::strings_view(args@);
    let mut out: Vec<String> = Vec::new();
    let mut i: usize = 0;
    assert(text::strings_view(out@) =~= Seq::empty());
    while i < args.len()
        invariant
            i <= args@.len(),
            v == text::strings_view(args@),
            text::strings_view(out@) == operands(v, i as nat),
        decreases args@.len() - i,
    {
        assert(v[i as int] == args@[i as int]@);
        if !has_prefix(args[i].as_str(), "--") {
            let ghost before = text::strings_view(out@);
            out.push(args[i].clone());
            assert(text::strings_view(out@) =~= before.push(v[i as int]));
        }
        i = i + 1;
    }
    out
}

/// The file of `check`.
pub fn check_file(args: &Vec<String>) -> (r: Result<String, String>)
    ensures
        ({
            let v = operands(text::strings_view(args@), args@.len());
            if v.len() == 1 {
                r is Ok && r->Ok_0@ == v[0]
            } else {
                r is Err && r->Err_0@ == "expected exactly one file"@
            }
        }),
{
    let files = find_operands(args);
    if files.len() == 1 {
        assert(text::strings_view(files@)[0] == files@[0]@);
        Ok(files[0].clone())
    } else {
        Err("expected exactly one file".to_owned())
    }
}

/// The file of `resolve-impl`: the first operand, which is source.
pub fn resolve_impl_file(args: &Vec<String>) -> (r: Result<String, String>)
    ensures
        ({
            let v = operands(text::strings_view(args@), args@.len());
            if v.len() == 0 {
                r is Err && r->Err_0@ == "expected a file"@
            } else if words::ends(v[0], ".mv"@) {
                r is Ok && r->Ok_0@ == v[0]
            } else {
                r is Err && r->Err_0@ == "expected a `.mv` source file"@
            }
        }),
{
    let files = find_operands(args);
    if files.len() == 0 {
        return Err("expected a file".to_owned());
    }
    assert(text::strings_view(files@)[0] == files@[0]@);
    if has_suffix(files[0].as_str(), ".mv") {
        Ok(files[0].clone())
    } else {
        Err("expected a `.mv` source file".to_owned())
    }
}

/// What `fmt` was asked to do.
#[derive(Debug, PartialEq, Eq)]
pub struct FmtRequest {
    pub check: bool,
    pub write: bool,
    pub files: Vec<String>,
}

/// Read the arguments of `fmt`.
pub fn parse_fmt(args: &Vec<String>) -> (r: Result<FmtRequest, String>)
    ensures
        ({
            let v = text::strings_view(args@);
            let check = v.contains("--check"@);
            let write = v.contains("--write"@);
            if check && write {
                r is Err && r->Err_0@ == "--check and --write are mutually exclusive"@
            } else {
                &&& r is Ok
                &&& (r->Ok_0).check == check
                &&& (r->Ok_0).write == write
                &&& text::strings_view((r->Ok_0).files@) == operands(v, v.len())
            }
        }),
{
    let check = contains_string(args, "--check");
    let write = contains_string(args, "--write");
    if check && write {
        return Err("--check and --write are mutually exclusive".to_owned());
    }
    let files = find_operands(args);
    Ok(FmtRequest { check, write, files })
}

/// What is done with the canonical form of one input.
#[derive(Debug, Clone, Copy, PartialEq, Eq, Structural)]
pub enum FmtStep {
    /// The input stays as it is.
    Keep,
    /// The input is reported as not canonical.
    Report,
    /// The canonical form replaces the input.
    Rewrite,
    /// The canonical form is printed.
    Print,
}

/// What is done with the canonical form of one input; `canonical` tells whether
/// the input already has it.
pub fn fmt_step(check: bool, write: bool, canonical: bool) -> (r: FmtStep)
    ensures
        r == if check {
            if canonical {
                FmtStep::Keep
            } else {
                FmtStep::Report
            }
        } else if write {
            if canonical {
                FmtStep::Keep
            } else {
                FmtStep::Rewrite
            }
        } else {
            FmtStep::Print
        },
{
    if check {
        if canonical {
            FmtStep::Keep
        } else {
            FmtStep::Report
        }
    } else if write {
        if canonical {
            FmtStep::Keep
        } else {
            FmtStep::Rewrite
        }
    } else {
        FmtStep::Print
    }
}

} // verus!
