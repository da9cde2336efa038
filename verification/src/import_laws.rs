//! What following imports yields: every module that is imported, once.
use vstd::prelude::*;

use crate::imports;
use crate::imports::{Found, SourcesView};
use crate::syntax::Module;
use crate::text;

verus! {

/// Indexes that fit in memory.
pub open spec fn holdable(s: SourcesView) -> bool {
    &&& s.project.len() <= usize::MAX
    &&& (s.std matches Some(v) ==> v.len() <= usize::MAX)
}

/// The name that a module at a position declares.
pub open spec fn name_at(s: SourcesView, f: Found) -> Seq<Seq<char>> {
    text::strings_view(imports::module_at(s, f).name@)
}

/// Whether an import is accounted for: it is the importing program itself, a module
/// of the standard library that was not found, or one of the modules.
pub open spec fn settled(
    s: SourcesView,
    main: Seq<Seq<char>>,
    v: Seq<Found>,
    mp: Seq<Seq<char>>,
) -> bool {
    mp == main || match imports::imported(s, mp) {
        Ok(Some(f)) => v.contains(f),
        Ok(None) => imports::is_std(mp),
        Err(_) => false,
    }
}

/// Whether all that a module imports is accounted for.
pub open spec fn all_settled(
    s: SourcesView,
    main: Seq<Seq<char>>,
    v: Seq<Found>,
    m: Module,
) -> bool {
    forall|k: int|
        0 <= k < imports::import_paths(m).len() ==> settled(
            s,
            main,
            v,
            #[trigger] imports::import_paths(m)[k],
        )
}

/// What a module imports was met or is yet to be met.
spec fn queued(
    s: SourcesView,
    queue: Seq<Seq<Seq<char>>>,
    seen: Seq<Seq<Seq<char>>>,
    m: Module,
) -> bool {
    forall|k: int|
        0 <= k < imports::import_paths(m).len() ==> seen.contains(
            #[trigger] imports::import_paths(m)[k],
        ) || queue.contains(imports::import_paths(m)[k])
}

/// The modules met so far: each once, under a name that was met, and what they import
/// was met or is yet to be met.
spec fn partway(
    s: SourcesView,
    main: Seq<Seq<char>>,
    queue: Seq<Seq<Seq<char>>>,
    seen: Seq<Seq<Seq<char>>>,
    out: Seq<Found>,
) -> bool {
    &&& forall|i: int| 0 <= i < seen.len() ==> settled(s, main, out, #[trigger] seen[i])
    &&& forall|i: int|
        0 <= i < out.len() ==> seen.contains(name_at(s, #[trigger] out[i])) && queued(
            s,
            queue,
            seen,
            imports::module_at(s, out[i]),
        )
    &&& out.no_duplicates()
}

proof fn lemma_imported_name(s: SourcesView, mp: Seq<Seq<char>>)
    requires
        holdable(s),
    ensures
        imports::imported(s, mp) matches Ok(Some(f)) ==> name_at(s, f) == mp,
{
    match s.std {
        Some(v) => imports::lemma_candidates(v, mp, v.len()),
        None => {},
    }
    imports::lemma_candidates(s.project, mp, s.project.len());
    match imports::imported(s, mp) {
        Ok(Some(f)) => if imports::is_std(mp) {
            let v = s.std->0;
            assert(imports::declared_name(v[imports::candidates(v, mp, v.len())[0]]) == mp);
        } else {
            let v = s.project;
            assert(imports::declared_name(v[imports::candidates(v, mp, v.len())[0]]) == mp);
        },
        _ => {},
    }
}

proof fn lemma_settled_stays(
    s: SourcesView,
    main: Seq<Seq<char>>,
    v: Seq<Found>,
    f: Found,
    mp: Seq<Seq<char>>,
)
    requires
        settled(s, main, v, mp),
    ensures
        settled(s, main, v.push(f), mp),
{
    match imports::imported(s, mp) {
        Ok(Some(g)) => if v.contains(g) {
            let j = choose|j: int| 0 <= j < v.len() && v[j] == g;
            assert(v.push(f)[j] == g);
        },
        _ => {},
    }
}

/// The paths that are met before the walk ends.
proof fn lemma_walk(
    s: SourcesView,
    main: Seq<Seq<char>>,
    queue: Seq<Seq<Seq<char>>>,
    seen: Seq<Seq<Seq<char>>>,
    out: Seq<Found>,
) -> (all: Seq<Seq<Seq<char>>>)
    requires
        holdable(s),
        partway(s, main, queue, seen, out),
        imports::followed(s, queue, seen, out) is Ok,
    ensures
        partway(s, main, Seq::empty(), all, imports::followed(s, queue, seen, out)->Ok_0),
        forall|i: int| 0 <= i < seen.len() ==> all.contains(#[trigger] seen[i]),
        forall|i: int| 0 <= i < queue.len() ==> all.contains(#[trigger] queue[i]),
    decreases imports::unmet(s, seen), queue.len(),
{
    if queue.len() == 0 {
        assert(queue =~= Seq::empty());
        seen
    } else {
        let mp = queue[0];
        let rest = queue.skip(1);
        assert forall|x: Seq<Seq<char>>| queue.contains(x) implies x == mp || rest.contains(x) by {
            let j = choose|j: int| 0 <= j < queue.len() && queue[j] == x;
            if j > 0 {
                assert(rest[j - 1] == x);
            }
        }
        if seen.contains(mp) {
            assert forall|i: int| 0 <= i < out.len() implies queued(
                s,
                rest,
                seen,
                imports::module_at(s, #[trigger] out[i]),
            ) by {
                assert(queued(s, queue, seen, imports::module_at(s, out[i])));
            }
            let all = lemma_walk(s, main, rest, seen, out);
            assert forall|i: int| 0 <= i < queue.len() implies all.contains(
                #[trigger] queue[i],
            ) by {
                if i > 0 {
                    assert(rest[i - 1] == queue[i]);
                } else {
                    let j = choose|j: int| 0 <= j < seen.len() && seen[j] == mp;
                    assert(all.contains(seen[j]));
                }
            }
            all
        } else {
            imports::lemma_unmet(s, seen, mp);
            lemma_imported_name(s, mp);
            let now = seen.push(mp);
            assert(now[seen.len() as int] == mp);
            assert forall|x: Seq<Seq<char>>| seen.contains(x) implies now.contains(x) by {
                let j = choose|j: int| 0 <= j < seen.len() && seen[j] == x;
                assert(now[j] == x);
            }
            let found = imports::imported(s, mp)->Ok_0;
            let more = match found {
                Some(f) => out.push(f),
                None => out,
            };
            let next = match found {
                Some(f) => rest + imports::import_paths(imports::module_at(s, f)),
                None => rest,
            };
            assert forall|x: Seq<Seq<char>>| rest.contains(x) implies next.contains(x) by {
                let j = choose|j: int| 0 <= j < rest.len() && rest[j] == x;
                assert(next[j] == x);
            }
            assert forall|i: int| 0 <= i < now.len() implies settled(
                s,
                main,
                more,
                #[trigger] now[i],
            ) by {
                if i < seen.len() {
                    assert(now[i] == seen[i]);
                    match found {
                        Some(f) => lemma_settled_stays(s, main, out, f, seen[i]),
                        None => {},
                    }
                } else {
                    match found {
                        Some(f) => {
                            assert(more[out.len() as int] == f);
                        },
                        None => {},
                    }
                }
            }
            assert forall|i: int| 0 <= i < more.len() implies now.contains(
                name_at(s, #[trigger] more[i]),
            ) && queued(s, next, now, imports::module_at(s, more[i])) by {
                if i < out.len() {
                    assert(more[i] == out[i]);
                    assert(queued(s, queue, seen, imports::module_at(s, out[i])));
                } else {
                    let m = imports::module_at(s, more[i]);
                    let paths = imports::import_paths(m);
                    assert forall|k: int| 0 <= k < paths.len() implies next.contains(
                        #[trigger] paths[k],
                    ) by {
                        assert(next[rest.len() + k] == paths[k]);
                    }
                }
            }
            match found {
                Some(f) => {
                    assert forall|i: int| 0 <= i < out.len() implies #[trigger] out[i] != f by {
                        assert(seen.contains(name_at(s, out[i])));
                    }
                },
                None => {},
            }
            assert(more.no_duplicates());
            let all = lemma_walk(s, main, next, now, more);
            assert forall|i: int| 0 <= i < seen.len() implies all.contains(
                #[trigger] seen[i],
            ) by {
                assert(now[i] == seen[i]);
            }
            assert forall|i: int| 0 <= i < queue.len() implies all.contains(
                #[trigger] queue[i],
            ) by {
                if i > 0 {
                    assert(rest[i - 1] == queue[i]);
                    assert(next[i - 1] == queue[i]);
                } else {
                    assert(all.contains(now[seen.len() as int]));
                }
            }
            all
        }
    }
}

/// The modules that a program needs are complete: every import of the program and of
/// each of them is the program itself, one of them, or a module of a standard library
/// that was not found; and none is there twice.
pub proof fn lemma_needed_modules_are_complete(main: Module, s: SourcesView)
    requires
        holdable(s),
        imports::needed_modules(main, s) is Ok,
    ensures
        ({
            let v = imports::needed_modules(main, s)->Ok_0;
            let name = text::strings_view(main.name@);
            &&& all_settled(s, name, v, main)
            &&& forall|i: int|
                0 <= i < v.len() ==> all_settled(
                    s,
                    name,
                    v,
                    imports::module_at(s, #[trigger] v[i]),
                )
            &&& v.no_duplicates()
        }),
{
    let v = imports::needed_modules(main, s)->Ok_0;
    let name = text::strings_view(main.name@);
    let none = Seq::<Seq<Seq<char>>>::empty();
    let paths = imports::import_paths(main);
    let all = lemma_walk(s, name, paths, seq![name], Seq::empty());
    assert forall|x: Seq<Seq<char>>| all.contains(x) implies settled(s, name, v, x) by {
        let j = choose|j: int| 0 <= j < all.len() && all[j] == x;
        assert(settled(s, name, v, all[j]));
    }
    assert(all_settled(s, name, v, main));
    assert forall|i: int| 0 <= i < v.len() implies all_settled(
        s,
        name,
        v,
        imports::module_at(s, #[trigger] v[i]),
    ) by {
        assert(queued(s, none, all, imports::module_at(s, v[i])));
    }
}

} // verus!
