//! What a command reports, line by line.
use vstd::prelude::*;
use vstd::string::*;

use crate::llvm;
use crate::llvm::{c_arg_text, c_param_text};
use crate::loaded::StoredDef;
use crate::text;
use crate::text::{join, push_decimal};
use crate::wasm;
use crate::wasm::{ExportInfo, ExportView, WasmArtifact};
use crate::wasm_trans;
use crate::wasm_trans::{CapImport, CapImportView};

verus! {

fn one_line(s: String) -> (r: Vec<String>)
    ensures
        text::strings_view(r@) == seq![s@],
{
    let mut v: Vec<String> = Vec::new();
    v.push(s);
    assert(text::strings_view(v@) =~= seq![s@]);
    v
}

fn add_line(v: &mut Vec<String>, s: String)
    ensures
        text::strings_view(final(v)@) == text::strings_view(old(v)@).push(s@),
{
    let ghost before = text::strings_view(v@);
    v.push(s);
    assert(text::strings_view(v@) =~= before.push(s@));
}

// ---- builds -----------------------------------------------------------------------------------------

/// The exports of a module, each with its arity.
pub open spec fn export_texts(v: Seq<ExportView>) -> Seq<Seq<char>> {
    Seq::new(v.len(), |i: int| v[i].name + "/"@ + text::decimal(v[i].arity as nat))
}

/// The exports of a module, each with its arity.
pub fn join_exports(v: &Vec<ExportInfo>) -> (r: String)
    ensures
        r@ == text::join_view(export_texts(wasm::export_infos_view(v@)), ", "@),
{
    let mut list: Vec<String> = Vec::new();
    let mut i: usize = 0;
    while i < v.len()
        invariant
            i <= v@.len(),
            list@.len() == i,
            forall|k: int|
                0 <= k < i ==> #[trigger] list@[k]@ == v@[k]@.name + "/"@ + text::decimal(
                    v@[k]@.arity as nat,
                ),
        decreases v@.len() - i,
    {
        let name = v[i].name.as_str();
        let arity = v[i].arity;
        let t = {
            let mut x = name.to_owned();
            x.append("/");
            push_decimal(&mut x, arity as u64);
            x
        };
        list.push(t);
        i = i + 1;
    }
    assert(text::strings_view(list@) =~= export_texts(wasm::export_infos_view(v@)));
    join(&list, ", ")
}

/// What tells a build by content hashes.
pub open spec fn pinned_text(pinned: bool) -> Seq<char> {
    if pinned {
        " from pinned hashes"@
    } else {
        ""@
    }
}

fn pinned_part(pinned: bool) -> (r: &'static str)
    ensures
        r@ == pinned_text(pinned),
{
    if pinned {
        " from pinned hashes"
    } else {
        ""
    }
}

/// What a module asks of its host.
pub open spec fn import_lines(v: Seq<CapImportView>) -> Seq<Seq<char>> {
    if v.len() == 0 {
        seq!["  capabilities required: none (pure — imports nothing)"@]
    } else {
        seq!["  capabilities required (host imports):"@] + Seq::new(
            v.len(),
            |i: int|
                "    "@ + v[i].cap + "::op"@ + text::decimal(v[i].op as nat) + " ("@ + text::decimal(
                    v[i].params as nat,
                ) + " arg(s))"@,
        )
    }
}

fn push_import_lines(out: &mut Vec<String>, v: &Vec<CapImport>)
    ensures
        text::strings_view(final(out)@) == text::strings_view(old(out)@) + import_lines(
            wasm_trans::cap_imports_view(v@),
        ),
{
    let ghost before = text::strings_view(out@);
    let ghost w = wasm_trans::cap_imports_view(v@);
    let ghost want = import_lines(w);
    if v.len() == 0 {
        add_line(out, "  capabilities required: none (pure — imports nothing)".to_owned());
        assert(text::strings_view(out@) =~= before + want);
        return;
    }
    add_line(out, "  capabilities required (host imports):".to_owned());
    let mut i: usize = 0;
    assert(text::strings_view(out@) =~= before + want.take(1));
    while i < v.len()
        invariant
            i <= v@.len(),
            v@.len() > 0,
            w == wasm_trans::cap_imports_view(v@),
            want == import_lines(w),
            text::strings_view(out@) == before + want.take(i + 1),
        decreases v@.len() - i,
    {
        assert(w[i as int] == v@[i as int]@);
        let cap = v[i].cap.as_str();
        let op = v[i].op;
        let n = v[i].params;
        let t = {
            let mut x = "    ".to_owned();
            x.append(cap);
            x.append("::op");
            push_decimal(&mut x, op as u64);
            x.append(" (");
            push_decimal(&mut x, n as u64);
            x.append(" arg(s))");
            x
        };
        assert(t@ == want[i + 1]);
        add_line(out, t);
        assert(text::strings_view(out@) =~= before + want.take(i + 2));
        i = i + 1;
    }
    assert(want.take(v@.len() as int + 1) =~= want);
}

/// What a build of a WebAssembly module reports.
pub fn wasm_report(
    file: &str,
    out: &str,
    pinned: bool,
    target: &str,
    artifact: &WasmArtifact,
) -> (r: Vec<String>)
    ensures
        text::strings_view(r@) == seq![
            "marv build: "@ + file@ + ": wrote "@ + out@ + " ("@ + text::decimal(
                artifact.bytes@.len(),
            ) + " bytes)"@ + pinned_text(pinned) + " via "@ + target@,
        ] + import_lines(artifact@.imports) + seq![
            "  exports: "@ + text::join_view(export_texts(artifact@.exports), ", "@),
        ],
{
    let n = artifact.bytes.len();
    let p = pinned_part(pinned);
    let head = {
        let mut x = "marv build: ".to_owned();
        x.append(file);
        x.append(": wrote ");
        x.append(out);
        x.append(" (");
        push_decimal(&mut x, n as u64);
        x.append(" bytes)");
        x.append(p);
        x.append(" via ");
        x.append(target);
        x
    };
    let mut v = one_line(head);
    push_import_lines(&mut v, &artifact.imports);
    let e = join_exports(&artifact.exports);
    let t = {
        let mut x = "  exports: ".to_owned();
        x.append(e.as_str());
        x
    };
    let ghost before = text::strings_view(v@);
    add_line(&mut v, t);
    assert(text::strings_view(v@) =~= before + seq![t@]);
    v
}

/// What a native build without output reports.
pub fn native_report(file: &str, pinned: bool, target: &str, arity: usize) -> (r: String)
    ensures
        r@ == ("marv build: "@ + file@ + ": compiled"@ + pinned_text(pinned) + " via "@ + target@ + " (entry takes "@ + text::decimal(arity as nat) + " word argument(s))"@),
{
    let p = pinned_part(pinned);
    {
        let mut x = "marv build: ".to_owned();
        x.append(file);
        x.append(": compiled");
        x.append(p);
        x.append(" via ");
        x.append(target);
        x.append(" (entry takes ");
        push_decimal(&mut x, arity as u64);
        x.append(" word argument(s))");
        x
    }
}

/// What a build of an object file reports.
pub fn object_report(file: &str, out: &str, bytes: usize, pinned: bool) -> (r: String)
    ensures
        r@ == ("marv build: "@ + file@ + ": wrote "@ + out@ + " ("@ + text::decimal(bytes as nat) + " bytes)"@ + pinned_text(pinned) + " via native-cranelift object"@),
{
    let p = pinned_part(pinned);
    {
        let mut x = "marv build: ".to_owned();
        x.append(file);
        x.append(": wrote ");
        x.append(out);
        x.append(" (");
        push_decimal(&mut x, bytes as u64);
        x.append(" bytes)");
        x.append(p);
        x.append(" via native-cranelift object");
        x
    }
}

/// What a build of an executable reports.
pub fn executable_report(file: &str, out: &str, pinned: bool, target: &str, arity: usize) -> (r:
    String)
    ensures
        r@ == ("marv build: "@ + file@ + ": wrote "@ + out@ + pinned_text(pinned) + " via "@ + target@ + " executable (entry takes "@ + text::decimal(arity as nat) + " word argument(s))"@),
{
    let p = pinned_part(pinned);
    {
        let mut x = "marv build: ".to_owned();
        x.append(file);
        x.append(": wrote ");
        x.append(out);
        x.append(p);
        x.append(" via ");
        x.append(target);
        x.append(" executable (entry takes ");
        push_decimal(&mut x, arity as u64);
        x.append(" word argument(s))");
        x
    }
}

/// Whether an entry of that arity can be linked into an executable.
pub fn check_link_arity(arity: usize) -> (r: Result<(), String>)
    ensures
        if arity > 4 {
            r is Err && r->Err_0@ == ("native executable wrapper supports up to four entry arguments, got "@ + text::decimal(arity as nat))
        } else {
            r is Ok
        },
{
    if arity > 4 {
        Err({
            let mut x = "native executable wrapper supports up to four entry arguments, got ".to_owned();
            push_decimal(&mut x, arity as u64);
            x
        })
    } else {
        Ok(())
    }
}

/// The C program around an entry of a native object: the memory that compiled
/// code asks for, and a `main` that reads integers and prints the result.
pub open spec fn object_runtime_text(entry: Seq<char>, arity: usize) -> Seq<char> {
    let params = text::join_view(llvm::c_params(arity as nat), ", "@);
    let args = text::join_view(llvm::c_args(arity as nat), ", "@);
    ("#include <errno.h>\n#include <stdint.h>\n#include <stdio.h>\n#include <stdlib.h>\n\nstatic int64_t **marv_heap = 0;\nstatic int64_t marv_heap_len = 0;\nstatic int64_t marv_heap_cap = 0;\n\nint64_t marv_rt_alloc(int64_t n_words) {\n    if (n_words < 0) n_words = 0;\n    int64_t *buf = (int64_t *)calloc((size_t)n_words, sizeof(int64_t));\n    if (!buf) {\n        fprintf(stderr, \"marv: allocation failed\\n\");\n        abort();\n    }\n    if (marv_heap_len == marv_heap_cap) {\n        int64_t next = marv_heap_cap ? marv_heap_cap * 2 : 64;\n        int64_t **grown = (int64_t **)realloc(marv_heap, (size_t)next * sizeof(int64_t *));\n        if (!grown) {\n            fprintf(stderr, \"marv: runtime heap tracking failed\\n\");\n            abort();\n        }\n        marv_heap = grown;\n        marv_heap_cap = next;\n    }\n    marv_heap[marv_heap_len++] = buf;\n    return (int64_t)(intptr_t)buf;\n}\n\nint64_t marv_rt_heap_mark(void) {\n    return marv_heap_len;\n}\n\nvoid marv_rt_heap_reset(int64_t mark) {\n    if (mark < 0) mark = 0;\n    if (mark > marv_heap_len) mark = marv_heap_len;\n    for (int64_t i = mark; i < marv_heap_len; i++) {\n        free(marv_heap[i]);\n    }\n    marv_heap_len = mark;\n}\n\nvoid marv_rt_bounds_fail(int64_t index, int64_t len) {\n    fprintf(stderr, \"marv: bounds check failed: index %lld out of range for length %lld (Tier 1)\\n\",\n            (long long)index, (long long)len);\n    abort();\n}\n\nextern int64_t "@ + entry + "("@ + params + ");\n\nstatic int parse_i64(const char *s, int64_t *out) {\n    errno = 0;\n    char *end = 0;\n    long long v = strtoll(s, &end, 10);\n    if (errno || !end || *end != 0) return 0;\n    *out = (int64_t)v;\n    return 1;\n}\n\nint main(int argc, char **argv) {\n    if (argc - 1 != "@ + text::decimal(arity as nat) + ") {\n        fprintf(stderr, \"marv: entry expects "@ + text::decimal(arity as nat) + " integer argument(s), got %d\\n\", argc - 1);\n        return 2;\n    }\n    int64_t argv_i64[4] = {0, 0, 0, 0};\n    for (int i = 0; i < argc - 1; i++) {\n        if (!parse_i64(argv[i + 1], &argv_i64[i])) {\n            fprintf(stderr, \"marv: argument %d `%s` is not an integer\\n\", i, argv[i + 1]);\n            return 2;\n        }\n    }\n    int64_t result = "@ + entry + "("@ + args + ");\n    marv_rt_heap_reset(0);\n    printf(\"%lld\\n\", (long long)result);\n    return 0;\n}\n"@)
}

/// The C program around an entry of a native object.
pub fn object_runtime_c(entry: &str, arity: usize) -> (r: String)
    ensures
        r@ == object_runtime_text(entry@, arity),
{
    let params = c_param_text(arity);
    let args = c_arg_text(arity);
    {
        let mut x = "#include <errno.h>\n#include <stdint.h>\n#include <stdio.h>\n#include <stdlib.h>\n\nstatic int64_t **marv_heap = 0;\nstatic int64_t marv_heap_len = 0;\nstatic int64_t marv_heap_cap = 0;\n\nint64_t marv_rt_alloc(int64_t n_words) {\n    if (n_words < 0) n_words = 0;\n    int64_t *buf = (int64_t *)calloc((size_t)n_words, sizeof(int64_t));\n    if (!buf) {\n        fprintf(stderr, \"marv: allocation failed\\n\");\n        abort();\n    }\n    if (marv_heap_len == marv_heap_cap) {\n        int64_t next = marv_heap_cap ? marv_heap_cap * 2 : 64;\n        int64_t **grown = (int64_t **)realloc(marv_heap, (size_t)next * sizeof(int64_t *));\n        if (!grown) {\n            fprintf(stderr, \"marv: runtime heap tracking failed\\n\");\n            abort();\n        }\n        marv_heap = grown;\n        marv_heap_cap = next;\n    }\n    marv_heap[marv_heap_len++] = buf;\n    return (int64_t)(intptr_t)buf;\n}\n\nint64_t marv_rt_heap_mark(void) {\n    return marv_heap_len;\n}\n\nvoid marv_rt_heap_reset(int64_t mark) {\n    if (mark < 0) mark = 0;\n    if (mark > marv_heap_len) mark = marv_heap_len;\n    for (int64_t i = mark; i < marv_heap_len; i++) {\n        free(marv_heap[i]);\n    }\n    marv_heap_len = mark;\n}\n\nvoid marv_rt_bounds_fail(int64_t index, int64_t len) {\n    fprintf(stderr, \"marv: bounds check failed: index %lld out of range for length %lld (Tier 1)\\n\",\n            (long long)index, (long long)len);\n    abort();\n}\n\nextern int64_t ".to_owned();
        x.append(entry);
        x.append("(");
        x.append(params.as_str());
        x.append(");\n\nstatic int parse_i64(const char *s, int64_t *out) {\n    errno = 0;\n    char *end = 0;\n    long long v = strtoll(s, &end, 10);\n    if (errno || !end || *end != 0) return 0;\n    *out = (int64_t)v;\n    return 1;\n}\n\nint main(int argc, char **argv) {\n    if (argc - 1 != ");
        push_decimal(&mut x, arity as u64);
        x.append(") {\n        fprintf(stderr, \"marv: entry expects ");
        push_decimal(&mut x, arity as u64);
        x.append(" integer argument(s), got %d\\n\", argc - 1);\n        return 2;\n    }\n    int64_t argv_i64[4] = {0, 0, 0, 0};\n    for (int i = 0; i < argc - 1; i++) {\n        if (!parse_i64(argv[i + 1], &argv_i64[i])) {\n            fprintf(stderr, \"marv: argument %d `%s` is not an integer\\n\", i, argv[i + 1]);\n            return 2;\n        }\n    }\n    int64_t result = ");
        x.append(entry);
        x.append("(");
        x.append(args.as_str());
        x.append(");\n    marv_rt_heap_reset(0);\n    printf(\"%lld\\n\", (long long)result);\n    return 0;\n}\n");
        x
    }
}

// ---- proofs ----------------------------------------------------------------------------------------------

/// What came of the proof of a definition.
#[derive(Debug, PartialEq, Eq)]
pub enum VerifyOutcome {
    Proved,
    Failed { obligation: String, counterexample: Vec<(String, String)>, message: String },
    Unsupported { reason: String },
    SolverUnavailable { reason: String },
}

/// The values of a counterexample.
pub open spec fn assignments(v: Seq<(String, String)>) -> Seq<Seq<char>> {
    Seq::new(v.len(), |i: int| v[i].0@ + " = "@ + v[i].1@)
}

/// What is reported of the proof of a definition.
pub open spec fn verify_lines(name: Seq<char>, o: VerifyOutcome) -> Seq<Seq<char>> {
    match o {
        VerifyOutcome::Proved => seq![("proved   "@ + name + "  (Tier 2: holds for all inputs)"@)],
        VerifyOutcome::Failed { obligation, counterexample, message } => {
            let values = text::join_view(assignments(counterexample@), ", "@);
            seq![
                ("FAILED   "@ + name + "  — "@ + message@),
                ("    obligation: "@ + obligation@),
                ("    counterexample: { "@ + values + " }"@),
            ]
        },
        VerifyOutcome::Unsupported { reason } => unsupported_lines(name, reason@),
        VerifyOutcome::SolverUnavailable { reason } => unsupported_lines(name, reason@),
    }
}

pub open spec fn unsupported_lines(name: Seq<char>, reason: Seq<char>) -> Seq<Seq<char>> {
    seq![("unsupported "@ + name + "  — "@ + reason), "    fallback: runtime-checked (Tier 1)"@]
}

fn unsupported_report(name: &str, reason: &str) -> (r: Vec<String>)
    ensures
        text::strings_view(r@) == unsupported_lines(name@, reason@),
{
    let t = {
        let mut x = "unsupported ".to_owned();
        x.append(name);
        x.append("  — ");
        x.append(reason);
        x
    };
    let mut v = one_line(t);
    add_line(&mut v, "    fallback: runtime-checked (Tier 1)".to_owned());
    assert(text::strings_view(v@) =~= unsupported_lines(name@, reason@));
    v
}

/// What is reported of the proof of a definition.
pub fn verify_report(name: &str, o: &VerifyOutcome) -> (r: Vec<String>)
    ensures
        text::strings_view(r@) == verify_lines(name@, *o),
{
    match o {
        VerifyOutcome::Proved => {
            let t = {
                let mut x = "proved   ".to_owned();
                x.append(name);
                x.append("  (Tier 2: holds for all inputs)");
                x
            };
            one_line(t)
        },
        VerifyOutcome::Failed { obligation, counterexample, message } => {
            let mut list: Vec<String> = Vec::new();
            let mut i: usize = 0;
            while i < counterexample.len()
                invariant
                    i <= counterexample@.len(),
                    list@.len() == i,
                    forall|k: int|
                        0 <= k < i ==> #[trigger] list@[k]@ == counterexample@[k].0@ + " = "@
                            + counterexample@[k].1@,
                decreases counterexample@.len() - i,
            {
                let a = counterexample[i].0.as_str();
                let b = counterexample[i].1.as_str();
                let t = {
                    let mut x = a.to_owned();
                    x.append(" = ");
                    x.append(b);
                    x
                };
                list.push(t);
                i = i + 1;
            }
            assert(text::strings_view(list@) =~= assignments(counterexample@));
            let values = join(&list, ", ");
            let first = {
                let mut x = "FAILED   ".to_owned();
                x.append(name);
                x.append("  — ");
                x.append(message.as_str());
                x
            };
            let mut v = one_line(first);
            let second = {
                let mut x = "    obligation: ".to_owned();
                x.append(obligation.as_str());
                x
            };
            add_line(&mut v, second);
            let third = {
                let mut x = "    counterexample: { ".to_owned();
                x.append(values.as_str());
                x.append(" }");
                x
            };
            add_line(&mut v, third);
            assert(text::strings_view(v@) =~= verify_lines(name@, *o));
            v
        },
        VerifyOutcome::Unsupported { reason } => unsupported_report(name, reason.as_str()),
        VerifyOutcome::SolverUnavailable { reason } => unsupported_report(name, reason.as_str()),
    }
}

/// Whether a contract was refuted.
pub fn is_refuted(o: &VerifyOutcome) -> (r: bool)
    ensures
        r == (*o is Failed),
{
    match o {
        VerifyOutcome::Failed { .. } => true,
        _ => false,
    }
}

// ---- implementations -------------------------------------------------------------------------------------

/// The implementation that a bounded type argument selects, and the definition that
/// each method of the interface leads to.
#[derive(Debug, PartialEq, Eq)]
pub struct Selection {
    pub param: String,
    pub interface: String,
    pub type_key: String,
    pub methods: Vec<(String, String)>,
}

/// The line of a selection.
pub open spec fn selection_line(s: Selection) -> Seq<char> {
    "    "@ + s.param@ + ": "@ + s.interface@ + " = "@ + s.type_key@ + "  ->  impl "@ + s.interface@
        + "["@ + s.type_key@ + "]"@
}

/// The lines of the methods of a selection.
pub open spec fn method_lines(v: Seq<(String, String)>) -> Seq<Seq<char>> {
    Seq::new(v.len(), |i: int| "        "@ + v[i].0@ + " -> "@ + v[i].1@)
}

/// The lines of the first `n` selections.
pub open spec fn selection_lines(v: Seq<Selection>, n: nat) -> Seq<Seq<char>>
    decreases n,
{
    if n == 0 {
        Seq::empty()
    } else {
        selection_lines(v, (n - 1) as nat).push(selection_line(v[n - 1])) + method_lines(
            v[n - 1].methods@,
        )
    }
}

/// What is reported of an instance of a generic function.
pub open spec fn resolution_lines(
    instance: Seq<char>,
    generic: Seq<char>,
    v: Seq<Selection>,
) -> Seq<Seq<char>> {
    seq![instance + " (instantiates `"@ + generic + "`)"@] + if v.len() == 0 {
        seq!["    (no bounded type parameters)"@]
    } else {
        selection_lines(v, v.len())
    }
}

fn push_method_lines(out: &mut Vec<String>, v: &Vec<(String, String)>)
    ensures
        text::strings_view(final(out)@) == text::strings_view(old(out)@) + method_lines(v@),
{
    let ghost before = text::strings_view(out@);
    let ghost want = method_lines(v@);
    let mut i: usize = 0;
    assert(before =~= before + want.take(0));
    while i < v.len()
        invariant
            i <= v@.len(),
            want == method_lines(v@),
            text::strings_view(out@) == before + want.take(i as int),
        decreases v@.len() - i,
    {
        let method = v[i].0.as_str();
        let def = v[i].1.as_str();
        let t = {
            let mut x = "        ".to_owned();
            x.append(method);
            x.append(" -> ");
            x.append(def);
            x
        };
        assert(t@ == want[i as int]);
        add_line(out, t);
        assert(text::strings_view(out@) =~= before + want.take(i + 1));
        i = i + 1;
    }
    assert(want.take(v@.len() as int) =~= want);
}

/// What is reported of an instance of a generic function: the implementation that
/// each of its bounded type arguments selects.
pub fn resolution_report(instance: &str, generic: &str, selections: &Vec<Selection>) -> (r: Vec<
    String,
>)
    ensures
        text::strings_view(r@) == resolution_lines(instance@, generic@, selections@),
{
    let head = {
        let mut x = instance.to_owned();
        x.append(" (instantiates `");
        x.append(generic);
        x.append("`)");
        x
    };
    let ghost first = seq![head@];
    let mut v = one_line(head);
    if selections.len() == 0 {
        add_line(&mut v, "    (no bounded type parameters)".to_owned());
        assert(text::strings_view(v@) =~= resolution_lines(instance@, generic@, selections@));
        return v;
    }
    let mut i: usize = 0;
    assert(text::strings_view(v@) =~= first + selection_lines(selections@, 0));
    while i < selections.len()
        invariant
            i <= selections@.len(),
            text::strings_view(v@) == first + selection_lines(selections@, i as nat),
        decreases selections@.len() - i,
    {
        let s = &selections[i];
        let t = {
            let mut x = "    ".to_owned();
            x.append(s.param.as_str());
            x.append(": ");
            x.append(s.interface.as_str());
            x.append(" = ");
            x.append(s.type_key.as_str());
            x.append("  ->  impl ");
            x.append(s.interface.as_str());
            x.append("[");
            x.append(s.type_key.as_str());
            x.append("]");
            x
        };
        assert(t@ == selection_line(selections@[i as int]));
        add_line(&mut v, t);
        push_method_lines(&mut v, &s.methods);
        assert(text::strings_view(v@) =~= first + selection_lines(selections@, (i + 1) as nat));
        i = i + 1;
    }
    v
}

// ---- the store -------------------------------------------------------------------------------------------

/// What a commit found of a definition.
#[derive(Debug, Clone, Copy, PartialEq, Eq, Structural)]
pub enum CommitStatus {
    New,
    Existing { reviewed: bool },
}

/// The start of a hash as written.
pub open spec fn short_hash(h: Seq<char>) -> Seq<char> {
    if h.len() > 15 {
        h.take(15)
    } else {
        h
    }
}

fn shorten(h: &str) -> (r: &str)
    ensures
        r@ == short_hash(h@),
{
    if h.unicode_len() > 15 {
        let t = h.substring_char(0, 15);
        assert(t@ =~= h@.take(15));
        t
    } else {
        h
    }
}

/// What a commit reports of a definition.
pub open spec fn commit_text(name: Seq<char>, h: Seq<char>, s: CommitStatus) -> Seq<char> {
    match s {
        CommitStatus::New => ("  + "@ + name + "  "@ + short_hash(h) + "…  (new — frozen & reviewed)"@),
        CommitStatus::Existing { reviewed } => if reviewed {
            ("  = "@ + name + "  "@ + short_hash(h) + "…  (already in store — already reviewed)"@)
        } else {
            ("  = "@ + name + "  "@ + short_hash(h) + "…  (already in store)"@)
        },
    }
}

/// What a commit reports of a definition.
pub fn commit_line(name: &str, h: &str, s: CommitStatus) -> (r: String)
    ensures
        r@ == commit_text(name@, h@, s),
{
    let short = shorten(h);
    match s {
        CommitStatus::New => {
            let mut x = "  + ".to_owned();
            x.append(name);
            x.append("  ");
            x.append(short);
            x.append("…  (new — frozen & reviewed)");
            x
        },
        CommitStatus::Existing { reviewed } => {
            if reviewed {
                {
                    let mut x = "  = ".to_owned();
                    x.append(name);
                    x.append("  ");
                    x.append(short);
                    x.append("…  (already in store — already reviewed)");
                    x
                }
            } else {
                {
                    let mut x = "  = ".to_owned();
                    x.append(name);
                    x.append("  ");
                    x.append(short);
                    x.append("…  (already in store)");
                    x
                }
            }
        },
    }
}

/// What a commit reports of a name that now has another hash.
pub fn rebound_line(name: &str) -> (r: String)
    ensures
        r@ == ("  ~ "@ + name@ + "  (name rebound to a new hash)"@),
{
    {
        let mut x = "  ~ ".to_owned();
        x.append(name);
        x.append("  (name rebound to a new hash)");
        x
    }
}

/// What a commit reports at its end.
pub fn commit_summary(file: &str, added: usize, deduped: usize, total: usize, dir: &str) -> (r:
    String)
    ensures
        r@ == ("marv commit: "@ + file@ + ": "@ + text::decimal(added as nat) + " new, "@ + text::decimal(deduped as nat) + " already in store ("@ + text::decimal(total as nat) + " defs total in "@ + dir@ + ")"@),
{
    {
        let mut x = "marv commit: ".to_owned();
        x.append(file);
        x.append(": ");
        push_decimal(&mut x, added as u64);
        x.append(" new, ");
        push_decimal(&mut x, deduped as u64);
        x.append(" already in store (");
        push_decimal(&mut x, total as u64);
        x.append(" defs total in ");
        x.append(dir);
        x.append(")");
        x
    }
}

/// What an audit reports of a definition.
pub open spec fn audit_text(
    h: Seq<char>,
    name: Seq<char>,
    reviewed: bool,
    reachable: bool,
    deps: nat,
    sites: nat,
) -> Seq<char> {
    let review = if reviewed {
        "reviewed"@
    } else {
        "unreviewed"@
    };
    let reach = if reachable {
        "reachable"@
    } else {
        "unreachable"@
    };
    (h + "  "@ + name + "  "@ + review + "  "@ + reach + "  deps:"@ + text::decimal(deps as nat) + "  unsafe:"@ + text::decimal(sites as nat))
}

/// What an audit reports of a stored definition.
pub fn audit_line(d: &StoredDef, reachable: bool) -> (r: String)
    ensures
        r@ == audit_text(
            d.hash@,
            d.name@,
            d.reviewed,
            reachable,
            d.deps@.len(),
            d.meta.unsafe_sites@.len(),
        ),
{
    let h = d.hash.as_str();
    let name = d.name.as_str();
    let review = if d.reviewed {
        "reviewed"
    } else {
        "unreviewed"
    };
    let reach = if reachable {
        "reachable"
    } else {
        "unreachable"
    };
    let deps = d.deps.len();
    let sites = d.meta.unsafe_sites.len();
    {
        let mut x = h.to_owned();
        x.append("  ");
        x.append(name);
        x.append("  ");
        x.append(review);
        x.append("  ");
        x.append(reach);
        x.append("  deps:");
        push_decimal(&mut x, deps as u64);
        x.append("  unsafe:");
        push_decimal(&mut x, sites as u64);
        x
    }
}

/// What an audit reports at its end.
pub fn audit_summary(blobs: usize, bindings: usize, dir: &str) -> (r: String)
    ensures
        r@ == ("marv store audit: "@ + text::decimal(blobs as nat) + " blob(s), "@ + text::decimal(bindings as nat) + " lock binding(s) in "@ + dir@),
{
    {
        let mut x = "marv store audit: ".to_owned();
        push_decimal(&mut x, blobs as u64);
        x.append(" blob(s), ");
        push_decimal(&mut x, bindings as u64);
        x.append(" lock binding(s) in ");
        x.append(dir);
        x
    }
}

/// What a collection reports at its end.
pub fn gc_summary(removed: usize, retained: usize, dir: &str) -> (r: String)
    ensures
        r@ == ("marv store gc: removed "@ + text::decimal(removed as nat) + " blob(s), retained "@ + text::decimal(retained as nat) + " in "@ + dir@),
{
    {
        let mut x = "marv store gc: removed ".to_owned();
        push_decimal(&mut x, removed as u64);
        x.append(" blob(s), retained ");
        push_decimal(&mut x, retained as u64);
        x.append(" in ");
        x.append(dir);
        x
    }
}

} // verus!
