//! Which source modules a module needs.
use vstd::prelude::*;
use vstd::string::*;

use crate::fresh;
use crate::syntax::Module;
use crate::text;
use crate::text::{clone_strings, join, push_decimal, str_eq};
use crate::words;
use crate::words::has_suffix;

verus! {

// ---- failures ---------------------------------------------------------------------------------------

/// Why a file could not be loaded.
#[derive(Debug, PartialEq, Eq)]
pub enum LoadError {
    Io(String),
    /// The file was read, and is not a program.
    Front(String),
    /// The name of the file does not tell what it holds.
    UnknownKind(String),
}

impl LoadError {
    /// The failure in words.
    pub fn message(&self) -> (r: String)
        ensures
            r@ == match *self {
                LoadError::Io(e) => e@,
                LoadError::Front(e) => e@,
                LoadError::UnknownKind(p) => (p@ + ": unrecognized extension (expected `.mv` source or `.core.json`)"@),
            },
    {
        match self {
            LoadError::Io(e) => e.clone(),
            LoadError::Front(e) => e.clone(),
            LoadError::UnknownKind(p) => {
                let mut x = p.as_str().to_owned();
                x.append(": unrecognized extension (expected `.mv` source or `.core.json`)");
                x
            },
        }
    }
}

/// What a file holds.
#[derive(Debug, Clone, Copy, PartialEq, Eq, Structural)]
pub enum FileKind {
    /// A Core snapshot.
    Core,
    /// Source.
    Source,
}

/// Whether a name is that of a Core snapshot.
pub fn is_core_file(name: &str) -> (r: bool)
    ensures
        r == words::ends(name@, ".core.json"@),
{
    has_suffix(name, ".core.json")
}

/// What a file holds, by its name.
pub fn kind_of_file(path: &str) -> (r: Result<FileKind, LoadError>)
    ensures
        if words::ends(path@, ".core.json"@) {
            r == Ok::<FileKind, LoadError>(FileKind::Core)
        } else if words::ends(path@, ".mv"@) {
            r == Ok::<FileKind, LoadError>(FileKind::Source)
        } else {
            r is Err && r->Err_0 is UnknownKind && r->Err_0->UnknownKind_0@ == path@
        },
{
    if is_core_file(path) {
        Ok(FileKind::Core)
    } else if has_suffix(path, ".mv") {
        Ok(FileKind::Source)
    } else {
        Err(LoadError::UnknownKind(path.to_owned()))
    }
}

// ---- an index of modules --------------------------------------------------------------------------------

/// A source module, and the file that declares it.
#[derive(Debug, PartialEq, Eq)]
pub struct SourceFile {
    pub path: String,
    pub module: Module,
}

/// The name of the module that a file declares.
pub open spec fn declared_name(f: SourceFile) -> Seq<Seq<char>> {
    text::strings_view(f.module.name@)
}

/// The names of the modules of an index.
pub open spec fn index_names(v: Seq<SourceFile>) -> Seq<Seq<Seq<char>>> {
    Seq::new(v.len(), |i: int| declared_name(v[i]))
}

/// The files among the first `n` that declare a module.
pub open spec fn candidates(v: Seq<SourceFile>, mp: Seq<Seq<char>>, n: nat) -> Seq<int>
    decreases n,
{
    if n == 0 {
        Seq::empty()
    } else if declared_name(v[n - 1]) == mp {
        candidates(v, mp, (n - 1) as nat).push(n - 1)
    } else {
        candidates(v, mp, (n - 1) as nat)
    }
}

/// The names of files.
pub open spec fn paths_at(v: Seq<SourceFile>, at: Seq<int>) -> Seq<Seq<char>> {
    Seq::new(at.len(), |i: int| v[at[i]].path@)
}

/// The one file of an index that declares a module, or why there is none. `root`
/// and `label` say where the index comes from.
pub open spec fn indexed(
    v: Seq<SourceFile>,
    mp: Seq<Seq<char>>,
    root: Seq<char>,
    label: Seq<char>,
) -> Result<int, Seq<char>> {
    let at = candidates(v, mp, v.len());
    let name = text::join_view(mp, "."@);
    if at.len() == 1 {
        Ok(at[0])
    } else if at.len() == 0 {
        Err(
            ("cannot resolve import `"@ + name + "`: no source module with that `mod` path was found in "@ + label),
        )
    } else {
        let n = at.len();
        let files = text::join_view(paths_at(v, at), ", "@);
        Err(
            ("ambiguous import `"@ + name + "` under "@ + root + ": "@ + text::decimal(n as nat) + " source files declare that `mod` path ("@ + files + ")"@),
        )
    }
}

/// Whether two paths are equal.
pub fn same_path(a: &Vec<String>, b: &Vec<String>) -> (r: bool)
    ensures
        r == (text::strings_view(a@) == text::strings_view(b@)),
{
    if a.len() != b.len() {
        assert(text::strings_view(a@).len() != text::strings_view(b@).len());
        return false;
    }
    let mut i: usize = 0;
    while i < a.len()
        invariant
            i <= a@.len(),
            a@.len() == b@.len(),
            forall|k: int| 0 <= k < i ==> (#[trigger] a@[k])@ == b@[k]@,
        decreases a@.len() - i,
    {
        if !str_eq(a[i].as_str(), b[i].as_str()) {
            assert(text::strings_view(a@)[i as int] == a@[i as int]@);
            assert(text::strings_view(b@)[i as int] == b@[i as int]@);
            return false;
        }
        i = i + 1;
    }
    assert(text::strings_view(a@) =~= text::strings_view(b@));
    true
}

/// What is found declares the module.
pub proof fn lemma_candidates(v: Seq<SourceFile>, mp: Seq<Seq<char>>, n: nat)
    requires
        n <= v.len(),
    ensures
        forall|k: int|
            0 <= k < candidates(v, mp, n).len() ==> 0 <= #[trigger] candidates(v, mp, n)[k] < n
                && declared_name(v[candidates(v, mp, n)[k]]) == mp,
    decreases n,
{
    if n > 0 {
        lemma_candidates(v, mp, (n - 1) as nat);
        let before = candidates(v, mp, (n - 1) as nat);
        let now = candidates(v, mp, n);
        assert forall|k: int| 0 <= k < now.len() implies 0 <= #[trigger] now[k] < n && declared_name(
            v[now[k]],
        ) == mp by {
            if k < before.len() {
                assert(now[k] == before[k]);
            }
        }
    }
}

/// The one file of an index that declares a module.
pub fn resolve_indexed_module(
    index: &Vec<SourceFile>,
    mp: &Vec<String>,
    root: &str,
    label: &str,
) -> (r: Result<usize, LoadError>)
    ensures
        match indexed(index@, text::strings_view(mp@), root@, label@) {
            Ok(i) => r is Ok && r->Ok_0 == i && 0 <= i < index@.len() && declared_name(index@[i])
                == text::strings_view(mp@),
            Err(e) => r is Err && r->Err_0 is Front && r->Err_0->Front_0@ == e,
        },
{
    let ghost p = text::strings_view(mp@);
    let mut at: Vec<usize> = Vec::new();
    let mut files: Vec<String> = Vec::new();
    let mut i: usize = 0;
    while i < index.len()
        invariant
            i <= index@.len(),
            p == text::strings_view(mp@),
            at@.len() == files@.len(),
            at@.len() == candidates(index@, p, i as nat).len(),
            forall|k: int|
                0 <= k < at@.len() ==> #[trigger] at@[k] == candidates(index@, p, i as nat)[k]
                    && files@[k]@ == index@[at@[k] as int].path@,
        decreases index@.len() - i,
    {
        if same_path(&index[i].module.name, mp) {
            at.push(i);
            files.push(index[i].path.clone());
        }
        i = i + 1;
    }
    proof {
        lemma_candidates(index@, p, index@.len());
    }
    let n = at.len();
    let name = join(mp, ".");
    if n == 1 {
        let r = at[0];
        assert(candidates(index@, p, index@.len())[0] == r);
        return Ok(r);
    }
    if n == 0 {
        return Err(LoadError::Front({
            let mut x = "cannot resolve import `".to_owned();
            x.append(name.as_str());
            x.append("`: no source module with that `mod` path was found in ");
            x.append(label);
            x
        }));
    }
    proof {
        let all = candidates(index@, p, index@.len());
        assert forall|k: int| 0 <= k < n implies #[trigger] text::strings_view(files@)[k]
            == paths_at(index@, all)[k] by {
            assert(at@[k] == all[k]);
        }
        assert(text::strings_view(files@) =~= paths_at(index@, all));
    }
    let files = join(&files, ", ");
    Err(LoadError::Front({
        let mut x = "ambiguous import `".to_owned();
        x.append(name.as_str());
        x.append("` under ");
        x.append(root);
        x.append(": ");
        push_decimal(&mut x, n as u64);
        x.append(" source files declare that `mod` path (");
        x.append(files.as_str());
        x.append(")");
        x
    }))
}

// ---- following imports -------------------------------------------------------------------------------------

/// Where the modules of a package come from.
pub fn package_label(name: &str, root: &str) -> (r: String)
    ensures
        r@ == "package `"@ + name@ + "` at "@ + root@,
{
    let mut x = "package `".to_owned();
    x.append(name);
    x.append("` at ");
    x.append(root);
    x
}

/// Where the modules of a project without a package manifest come from.
pub fn source_root_label(root: &str) -> (r: String)
    ensures
        r@ == "the source root "@ + root@,
{
    let mut x = "the source root ".to_owned();
    x.append(root);
    x
}

/// The modules that imports may refer to: those of the standard library, if it
/// was found, and those of the project.
pub struct Sources<'a> {
    pub std: Option<&'a Vec<SourceFile>>,
    pub project: &'a Vec<SourceFile>,
    pub root: &'a str,
    pub label: &'a str,
}

/// The mathematical counterpart of [`Sources`].
pub struct SourcesView {
    pub std: Option<Seq<SourceFile>>,
    pub project: Seq<SourceFile>,
    pub root: Seq<char>,
    pub label: Seq<char>,
}

impl<'a> View for Sources<'a> {
    type V = SourcesView;

    open spec fn view(&self) -> SourcesView {
        SourcesView {
            std: match self.std {
                Some(v) => Some(v@),
                None => None,
            },
            project: self.project@,
            root: self.root@,
            label: self.label@,
        }
    }
}

/// A module of the standard library or of the project, by its position.
#[derive(Debug, Clone, Copy, PartialEq, Eq, Structural)]
pub enum Found {
    Std(usize),
    Project(usize),
}

/// Whether a path is one of the standard library.
pub open spec fn is_std(mp: Seq<Seq<char>>) -> bool {
    mp.len() > 0 && mp[0] == "std"@
}

/// The module that an import denotes. One of the standard library that is not
/// found is none; any other one must be found.
pub open spec fn imported(s: SourcesView, mp: Seq<Seq<char>>) -> Result<Option<Found>, Seq<char>> {
    if is_std(mp) {
        match s.std {
            Some(v) => match indexed(v, mp, "std"@, "std"@) {
                Ok(i) => Ok(Some(Found::Std(i as usize))),
                Err(_) => Ok(None),
            },
            None => Ok(None),
        }
    } else {
        match indexed(s.project, mp, s.root, s.label) {
            Ok(i) => Ok(Some(Found::Project(i as usize))),
            Err(e) => Err(e),
        }
    }
}

/// The module at a position.
pub open spec fn module_at(s: SourcesView, f: Found) -> Module {
    match f {
        Found::Std(i) => (s.std->0)[i as int].module,
        Found::Project(i) => s.project[i as int].module,
    }
}

/// The paths that a module imports.
pub open spec fn import_paths(m: Module) -> Seq<Seq<Seq<char>>> {
    Seq::new(m.imports@.len(), |i: int| text::strings_view(m.imports@[i].path@))
}

/// How many modules were not met yet.
pub open spec fn unmet(s: SourcesView, seen: Seq<Seq<Seq<char>>>) -> nat {
    fresh::fresh(index_names(s.project), seen, s.project.len()) + match s.std {
        Some(v) => fresh::fresh(index_names(v), seen, v.len()),
        None => 0,
    }
}

/// A module that is met leaves fewer.
pub proof fn lemma_unmet(s: SourcesView, seen: Seq<Seq<Seq<char>>>, mp: Seq<Seq<char>>)
    requires
        !seen.contains(mp),
    ensures
        unmet(s, seen.push(mp)) <= unmet(s, seen),
        match imported(s, mp) {
            Ok(Some(_)) => unmet(s, seen.push(mp)) < unmet(s, seen),
            _ => true,
        },
{
    fresh::lemma_fresh_less(index_names(s.project), seen, mp, s.project.len());
    match s.std {
        Some(v) => {
            fresh::lemma_fresh_less(index_names(v), seen, mp, v.len());
            if is_std(mp) {
                match indexed(v, mp, "std"@, "std"@) {
                    Ok(i) => {
                        lemma_candidates(v, mp, v.len());
                        assert(candidates(v, mp, v.len())[0] == i);
                        assert(index_names(v)[i] == mp);
                    },
                    Err(_) => {},
                }
            }
        },
        None => {},
    }
    if !is_std(mp) {
        match indexed(s.project, mp, s.root, s.label) {
            Ok(i) => {
                lemma_candidates(s.project, mp, s.project.len());
                assert(candidates(s.project, mp, s.project.len())[0] == i);
                assert(index_names(s.project)[i] == mp);
            },
            Err(_) => {},
        }
    }
}

/// The modules that the imports of `queue` lead to, after those of `out`, in the
/// order in which they are met; those of `seen` are not met again.
pub open spec fn followed(
    s: SourcesView,
    queue: Seq<Seq<Seq<char>>>,
    seen: Seq<Seq<Seq<char>>>,
    out: Seq<Found>,
) -> Result<Seq<Found>, Seq<char>>
    decreases unmet(s, seen), queue.len(),
{
    proof {
        if queue.len() > 0 && !seen.contains(queue[0]) {
            lemma_unmet(s, seen, queue[0]);
        }
    }
    if queue.len() == 0 {
        Ok(out)
    } else if seen.contains(queue[0]) {
        followed(s, queue.skip(1), seen, out)
    } else {
        match imported(s, queue[0]) {
            Err(e) => Err(e),
            Ok(None) => followed(s, queue.skip(1), seen.push(queue[0]), out),
            Ok(Some(f)) => followed(
                s,
                queue.skip(1) + import_paths(module_at(s, f)),
                seen.push(queue[0]),
                out.push(f),
            ),
        }
    }
}

/// The modules that a module needs: what its imports lead to, itself left out.
pub open spec fn needed_modules(main: Module, s: SourcesView) -> Result<Seq<Found>, Seq<char>> {
    followed(s, import_paths(main), seq![text::strings_view(main.name@)], Seq::empty())
}

/// The counterpart of a list of paths, member by member.
pub open spec fn paths_view(v: Seq<Vec<String>>) -> Seq<Seq<Seq<char>>> {
    Seq::new(v.len(), |i: int| text::strings_view(v[i]@))
}

fn met(seen: &Vec<Vec<String>>, mp: &Vec<String>) -> (r: bool)
    ensures
        r == paths_view(seen@).contains(text::strings_view(mp@)),
{
    let mut i: usize = 0;
    while i < seen.len()
        invariant
            i <= seen@.len(),
            forall|k: int|
                0 <= k < i ==> #[trigger] paths_view(seen@)[k] != text::strings_view(mp@),
        decreases seen@.len() - i,
    {
        assert(paths_view(seen@)[i as int] == text::strings_view(seen@[i as int]@));
        if same_path(&seen[i], mp) {
            return true;
        }
        i = i + 1;
    }
    false
}

fn push_imports(queue: &mut Vec<Vec<String>>, m: &Module)
    ensures
        paths_view(final(queue)@) == paths_view(old(queue)@) + import_paths(*m),
{
    let ghost before = paths_view(queue@);
    let mut i: usize = 0;
    assert(before + import_paths(*m).take(0) =~= before);
    while i < m.imports.len()
        invariant
            i <= m.imports@.len(),
            paths_view(queue@) == before + import_paths(*m).take(i as int),
        decreases m.imports@.len() - i,
    {
        let ghost now = paths_view(queue@);
        queue.push(clone_strings(&m.imports[i].path));
        assert(paths_view(queue@) =~= now.push(import_paths(*m)[i as int]));
        assert(import_paths(*m).take(i + 1) =~= import_paths(*m).take(i as int).push(
            import_paths(*m)[i as int],
        ));
        assert(paths_view(queue@) =~= before + import_paths(*m).take(i + 1));
        i = i + 1;
    }
    assert(import_paths(*m).take(m.imports@.len() as int) =~= import_paths(*m));
}

impl<'a> Sources<'a> {
    fn find_import(&self, mp: &Vec<String>) -> (r: Result<Option<Found>, LoadError>)
        ensures
            match imported(self@, text::strings_view(mp@)) {
                Ok(f) => r == Ok::<Option<Found>, LoadError>(f),
                Err(e) => r is Err && r->Err_0 is Front && r->Err_0->Front_0@ == e,
            },
            match r {
                Ok(Some(Found::Std(i))) => self.std is Some && i < self.std->0@.len(),
                Ok(Some(Found::Project(i))) => i < self.project@.len(),
                _ => true,
            },
    {
        let std = mp.len() > 0 && str_eq(mp[0].as_str(), "std");
        proof {
            if mp@.len() > 0 {
                assert(text::strings_view(mp@)[0] == mp@[0]@);
            }
        }
        if std {
            match self.std {
                Some(v) => match resolve_indexed_module(v, mp, "std", "std") {
                    Ok(i) => Ok(Some(Found::Std(i))),
                    Err(_) => Ok(None),
                },
                None => Ok(None),
            }
        } else {
            match resolve_indexed_module(self.project, mp, self.root, self.label) {
                Ok(i) => Ok(Some(Found::Project(i))),
                Err(e) => Err(e),
            }
        }
    }

    /// The modules that `main` needs, in the order in which its imports lead to
    /// them.
    pub fn resolve_source_imports(&self, main: &Module) -> (r: Result<Vec<Found>, LoadError>)
        ensures
            match needed_modules(*main, self@) {
                Ok(v) => r is Ok && r->Ok_0@ == v,
                Err(e) => r is Err && r->Err_0 is Front && r->Err_0->Front_0@ == e,
            },
    {
        let ghost s = self@;
        let ghost want = needed_modules(*main, s);
        let mut out: Vec<Found> = Vec::new();
        let mut seen: Vec<Vec<String>> = Vec::new();
        seen.push(clone_strings(&main.name));
        assert(paths_view(seen@) =~= seq![text::strings_view(main.name@)]);
        let mut queue: Vec<Vec<String>> = Vec::new();
        push_imports(&mut queue, main);
        assert(paths_view(queue@) =~= import_paths(*main));
        assert(out@ =~= Seq::empty());
        let mut at: usize = 0;
        assert(paths_view(queue@).skip(0) =~= paths_view(queue@));
        while at < queue.len()
            invariant
                at <= queue@.len(),
                s == self@,
                followed(s, paths_view(queue@).skip(at as int), paths_view(seen@), out@) == want,
                want == needed_modules(*main, s),
            decreases unmet(s, paths_view(seen@)), queue@.len() - at,
        {
            let mp = clone_strings(&queue[at]);
            let ghost rest = paths_view(queue@).skip(at as int);
            let ghost p = text::strings_view(mp@);
            assert(rest[0] == paths_view(queue@)[at as int]);
            assert(rest[0] == p);
            assert(rest.skip(1) =~= paths_view(queue@).skip(at + 1));
            at = at + 1;
            if !met(&seen, &mp) {
                let ghost before = paths_view(seen@);
                proof {
                    lemma_unmet(s, before, p);
                }
                let f = match self.find_import(&mp) {
                    Ok(f) => f,
                    Err(e) => {
                        return Err(e);
                    },
                };
                seen.push(mp);
                assert(paths_view(seen@) =~= before.push(p));
                if let Some(f) = f {
                    let m = match f {
                        Found::Std(i) => match self.std {
                            Some(v) => &v[i].module,
                            None => main,
                        },
                        Found::Project(i) => &self.project[i].module,
                    };
                    assert(*m == module_at(s, f));
                    let ghost q = paths_view(queue@);
                    push_imports(&mut queue, m);
                    assert(paths_view(queue@).skip(at as int) =~= q.skip(at as int) + import_paths(
                        *m,
                    ));
                    out.push(f);
                }
            }
        }
        assert(paths_view(queue@).skip(at as int).len() == 0);
        Ok(out)
    }
}

} // verus!
