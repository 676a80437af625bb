use vstd::prelude::*;

use crate::annotations::{first_expand, first_expand_exec, text_at, text_bounds};
use crate::text::{chars_of, has_at, lines_of, matches_at, split_lines, string_of};
use crate::error::{ModuleMismatch, TestingError};
use crate::partition::{braces_balance, parse_modules, parse_of, partition, partitioned, ModuleDecl};
use crate::tokens::{tokenize_chars, tokens_of, views};

verus! {

/// The module that a source file holds, from its path relative to the
/// crate: `src/a/b.rs` and `src/a/b/mod.rs` hold `a/b`. Another path is
/// kept as it is.
pub open spec fn module_of_path(p: Seq<char>) -> Seq<char> {
    if p.len() > 7 && has_at(p, 0, seq!['s', 'r', 'c', '/']) && has_at(
        p,
        p.len() - 3,
        seq!['.', 'r', 's'],
    ) {
        let m = p.subrange(4, p.len() - 3);
        if m.len() > 4 && has_at(m, m.len() - 4, seq!['/', 'm', 'o', 'd']) {
            m.subrange(0, m.len() - 4)
        } else {
            m
        }
    } else {
        p
    }
}

/// The tokens that an expansion directive on line `l` expects, if any.
pub open spec fn expansion_of_line(l: Seq<char>) -> Option<Seq<Seq<char>>> {
    match first_expand(l, 0) {
        Some(e) => Some(tokens_of(text_at(l, e))),
        None => None,
    }
}

/// The fragments that the lines `ls` of one file expect, in order.
pub open spec fn fragments_of_lines(ls: Seq<Seq<char>>) -> Seq<Seq<Seq<char>>>
    decreases ls.len(),
{
    if ls.len() == 0 {
        seq![]
    } else {
        let init = fragments_of_lines(ls.drop_last());
        match expansion_of_line(ls.last()) {
            Some(t) => init.push(t),
            None => init,
        }
    }
}

/// The fragments that the files of a crate expect, each with its module,
/// file after file.
pub open spec fn crate_fragments(files: Seq<(Seq<char>, Seq<char>)>) -> Seq<
    (Seq<char>, Seq<Seq<char>>),
>
    decreases files.len(),
{
    if files.len() == 0 {
        seq![]
    } else {
        let f = files.last();
        crate_fragments(files.drop_last()) + fragments_of_lines(lines_of(f.1)).map_values(
            |t: Seq<Seq<char>>| (module_of_path(f.0), t),
        )
    }
}

/// The modules of `frags`, each once, in order of first appearance.
pub open spec fn modules_of(frags: Seq<(Seq<char>, Seq<Seq<char>>)>) -> Seq<Seq<char>>
    decreases frags.len(),
{
    if frags.len() == 0 {
        seq![]
    } else {
        let init = modules_of(frags.drop_last());
        if init.contains(frags.last().0) {
            init
        } else {
            init.push(frags.last().0)
        }
    }
}

/// The fragments of `frags` filed under `module`, in order.
pub open spec fn fragments_for(frags: Seq<(Seq<char>, Seq<Seq<char>>)>, module: Seq<char>) -> Seq<
    Seq<Seq<char>>,
>
    decreases frags.len(),
{
    if frags.len() == 0 {
        seq![]
    } else {
        let init = fragments_for(frags.drop_last(), module);
        if frags.last().0 == module {
            init.push(frags.last().1)
        } else {
            init
        }
    }
}

/// The fragments grouped by module: one entry per module, in order of
/// first appearance, with its fragments in order.
pub open spec fn grouped(frags: Seq<(Seq<char>, Seq<Seq<char>>)>) -> Seq<
    (Seq<char>, Seq<Seq<Seq<char>>>),
> {
    modules_of(frags).map_values(|m: Seq<char>| (m, fragments_for(frags, m)))
}

/// Each module appears once among the modules of `frags`.
pub proof fn lemma_modules_distinct(frags: Seq<(Seq<char>, Seq<Seq<char>>)>)
    ensures
        modules_of(frags).no_duplicates(),
    decreases frags.len(),
{
    if frags.len() > 0 {
        lemma_modules_distinct(frags.drop_last());
    }
}

/// The keys of entries.
pub open spec fn entry_keys(es: Seq<(Seq<char>, Seq<Seq<char>>)>) -> Seq<Seq<char>> {
    es.map_values(|e: (Seq<char>, Seq<Seq<char>>)| e.0)
}

/// The first entry under each key, in order.
pub open spec fn first_entries(es: Seq<(Seq<char>, Seq<Seq<char>>)>) -> Seq<
    (Seq<char>, Seq<Seq<char>>),
>
    decreases es.len(),
{
    if es.len() == 0 {
        seq![]
    } else {
        let init = first_entries(es.drop_last());
        if entry_keys(init).contains(es.last().0) {
            init
        } else {
            init.push(es.last())
        }
    }
}

/// Each key appears once among the first entries.
pub proof fn lemma_first_entries_distinct(es: Seq<(Seq<char>, Seq<Seq<char>>)>)
    ensures
        entry_keys(first_entries(es)).no_duplicates(),
    decreases es.len(),
{
    if es.len() > 0 {
        let init = first_entries(es.drop_last());
        lemma_first_entries_distinct(es.drop_last());
        if !entry_keys(init).contains(es.last().0) {
            assert(entry_keys(init.push(es.last())) =~= entry_keys(init).push(es.last().0));
        }
    }
}

/// Expected fragments as plain values.
pub open spec fn fragment_views(v: Seq<Vec<String>>) -> Seq<Seq<Seq<char>>> {
    v.map_values(|t: Vec<String>| views(t@))
}

/// Grouped expected fragments as plain values.
pub open spec fn groups_view(v: Seq<(String, Vec<Vec<String>>)>) -> Seq<
    (Seq<char>, Seq<Seq<Seq<char>>>),
> {
    v.map_values(|g: (String, Vec<Vec<String>>)| (g.0@, fragment_views(g.1@)))
}

/// Module-tagged fragments as plain values.
pub open spec fn tagged_view(v: Seq<(String, Vec<String>)>) -> Seq<(Seq<char>, Seq<Seq<char>>)> {
    v.map_values(|f: (String, Vec<String>)| (f.0@, views(f.1@)))
}

pub(crate) fn clone_tokens(v: &Vec<String>) -> (r: Vec<String>)
    ensures
        r@ == v@,
{
    let mut out: Vec<String> = Vec::new();
    let mut i: usize = 0;
    while i < v.len()
        invariant
            i <= v@.len(),
            out@ == v@.take(i as int),
        decreases v@.len() - i,
    {
        out.push(v[i].clone());
        i = i + 1;
        assert(out@ =~= v@.take(i as int));
    }
    assert(v@.take(i as int) =~= v@);
    out
}

pub(crate) fn contains_string(v: &Vec<String>, s: &String) -> (r: bool)
    ensures
        r == views(v@).contains(s@),
{
    let mut i: usize = 0;
    while i < v.len()
        invariant
            i <= v@.len(),
            forall|k: int| 0 <= k < i ==> v@[k]@ != s@,
        decreases v@.len() - i,
    {
        if v[i].eq(s) {
            assert(views(v@)[i as int] == s@);
            return true;
        }
        i = i + 1;
    }
    proof {
        if views(v@).contains(s@) {
            let k = choose|k: int| 0 <= k < views(v@).len() && views(v@)[k] == s@;
            assert(v@[k]@ == s@);
        }
    }
    false
}

fn modules_in(frags: &Vec<(String, Vec<String>)>) -> (r: Vec<String>)
    ensures
        views(r@) == modules_of(tagged_view(frags@)),
{
    let ghost fv = tagged_view(frags@);
    let mut out: Vec<String> = Vec::new();
    let mut i: usize = 0;
    assert(fv.take(0) =~= Seq::<(Seq<char>, Seq<Seq<char>>)>::empty());
    assert(views(out@) =~= Seq::<Seq<char>>::empty());
    while i < frags.len()
        invariant
            i <= frags@.len(),
            fv == tagged_view(frags@),
            views(out@) == modules_of(fv.take(i as int)),
        decreases frags@.len() - i,
    {
        assert(fv.take(i + 1).drop_last() =~= fv.take(i as int));
        assert(fv.take(i + 1).last().0 == frags@[i as int].0@);
        let m = &frags[i].0;
        if !contains_string(&out, m) {
            let ghost before = out@;
            out.push(m.clone());
            assert(views(out@) =~= views(before).push(m@));
        }
        i = i + 1;
    }
    assert(fv.take(i as int) =~= fv);
    out
}

fn fragments_in(frags: &Vec<(String, Vec<String>)>, module: &String) -> (r: Vec<Vec<String>>)
    ensures
        fragment_views(r@) == fragments_for(tagged_view(frags@), module@),
{
    let ghost fv = tagged_view(frags@);
    let mut out: Vec<Vec<String>> = Vec::new();
    let mut i: usize = 0;
    assert(fv.take(0) =~= Seq::<(Seq<char>, Seq<Seq<char>>)>::empty());
    assert(fragment_views(out@) =~= Seq::<Seq<Seq<char>>>::empty());
    while i < frags.len()
        invariant
            i <= frags@.len(),
            fv == tagged_view(frags@),
            fragment_views(out@) == fragments_for(fv.take(i as int), module@),
        decreases frags@.len() - i,
    {
        assert(fv.take(i + 1).drop_last() =~= fv.take(i as int));
        assert(fv.take(i + 1).last() == (frags@[i as int].0@, views(frags@[i as int].1@)));
        let (m, t) = &frags[i];
        if m.eq(module) {
            let ghost before = out@;
            out.push(clone_tokens(t));
            assert(fragment_views(out@) =~= fragment_views(before).push(views(t@)));
        }
        i = i + 1;
    }
    assert(fv.take(i as int) =~= fv);
    out
}

/// Reads the expected expansion out of the sources of a crate.
pub struct CheckExpansionStepFactory;

impl CheckExpansionStepFactory {
    pub fn new() -> (r: Self) {
        CheckExpansionStepFactory {  }
    }

    /// The tokens of `source`.
    pub fn parse_tokens(source: &str) -> (r: Vec<String>)
        ensures
            views(r@) == tokens_of(source@),
    {
        crate::tokens::tokenize(source)
    }

    /// The module that the source file at `path` (relative to the crate)
    /// holds.
    pub fn transform_path_into_module(path: &str) -> (r: String)
        ensures
            r@ == module_of_path(path@),
    {
        let p = chars_of(path);
        let n = p.len();
        if n > 7 && matches_at(&p, 0, &['s', 'r', 'c', '/']) && matches_at(&p, n - 3, &['.', 'r', 's']) {
            let hi = n - 3;
            let ghost m = p@.subrange(4, n - 3);
            if hi - 4 > 4 && matches_at(&p, hi - 4, &['/', 'm', 'o', 'd']) {
                assert(m.subrange(m.len() - 4, m.len() as int) =~= p@.subrange(hi - 4, hi as int));
                assert(m.subrange(0, m.len() - 4) =~= p@.subrange(4, hi - 4));
                string_of(&p, 4, hi - 4)
            } else {
                proof {
                    if m.len() > 4 {
                        assert(m.subrange(m.len() - 4, m.len() as int) =~= p@.subrange(
                            hi - 4,
                            hi as int,
                        ));
                    }
                }
                string_of(&p, 4, hi)
            }
        } else {
            assert(p@.subrange(0, n as int) =~= p@);
            string_of(&p, 0, n)
        }
    }

    /// The tokens that an expansion directive on line `line` expects, if any.
    pub fn analyse_source_line(line: &str) -> (r: Option<Vec<String>>)
        ensures
            match expansion_of_line(line@) {
                Some(t) => r matches Some(v) && views(v@) == t,
                None => r is None,
            },
    {
        let l = chars_of(line);
        Self::expansion_of_chars(&l)
    }

    fn expansion_of_chars(l: &Vec<char>) -> (r: Option<Vec<String>>)
        ensures
            match expansion_of_line(l@) {
                Some(t) => r matches Some(v) && views(v@) == t,
                None => r is None,
            },
    {
        match first_expand_exec(l) {
            Some(e) => {
                let end = text_bounds(l, e);
                let t = crate::text::sub_chars(l, e, end);
                Some(tokenize_chars(&t))
            },
            None => None,
        }
    }

    /// The expected expansion of a crate, from its source files given as
    /// pairs of a path relative to the crate and a source text: one entry per
    /// module, in order of first appearance, holding its fragments in order.
    pub fn find_expected_expansion(files: &Vec<(String, String)>) -> (r: Vec<
        (String, Vec<Vec<String>>),
    >)
        ensures
            groups_view(r@) == grouped(
                crate_fragments(files@.map_values(|f: (String, String)| (f.0@, f.1@))),
            ),
            forall|i: int, j: int| 0 <= i < j < r@.len() ==> r@[i].0@ != r@[j].0@,
    {
        let frags = Self::collect_fragments(files);
        let ghost fv = tagged_view(frags@);
        let modules = modules_in(&frags);
        let mut out: Vec<(String, Vec<Vec<String>>)> = Vec::new();
        let mut j: usize = 0;
        while j < modules.len()
            invariant
                j <= modules@.len(),
                fv == tagged_view(frags@),
                views(modules@) == modules_of(fv),
                groups_view(out@) == grouped(fv).take(j as int),
            decreases modules@.len() - j,
        {
            let group = fragments_in(&frags, &modules[j]);
            let ghost before = out@;
            out.push((modules[j].clone(), group));
            assert(groups_view(out@) =~= grouped(fv).take(j + 1)) by {
                assert(views(modules@)[j as int] == modules@[j as int]@);
                assert(groups_view(out@) =~= groups_view(before).push(
                    (modules@[j as int]@, fragment_views(group@)),
                ));
            }
            j = j + 1;
        }
        assert(grouped(fv).take(j as int) =~= grouped(fv));
        proof {
            lemma_modules_distinct(fv);
            assert forall|a: int, b: int| 0 <= a < b < out@.len() implies out@[a].0@
                != out@[b].0@ by {
                assert(groups_view(out@)[a].0 == modules_of(fv)[a]);
                assert(groups_view(out@)[b].0 == modules_of(fv)[b]);
            }
        }
        out
    }

    fn collect_fragments(files: &Vec<(String, String)>) -> (r: Vec<(String, Vec<String>)>)
        ensures
            tagged_view(r@) == crate_fragments(
                files@.map_values(|f: (String, String)| (f.0@, f.1@)),
            ),
    {
        let ghost fs = files@.map_values(|f: (String, String)| (f.0@, f.1@));
        let mut out: Vec<(String, Vec<String>)> = Vec::new();
        let mut i: usize = 0;
        assert(fs.take(0) =~= Seq::<(Seq<char>, Seq<char>)>::empty());
        assert(tagged_view(out@) =~= Seq::<(Seq<char>, Seq<Seq<char>>)>::empty());
        while i < files.len()
            invariant
                i <= files@.len(),
                fs == files@.map_values(|f: (String, String)| (f.0@, f.1@)),
                tagged_view(out@) == crate_fragments(fs.take(i as int)),
            decreases files@.len() - i,
        {
            assert(fs.take(i + 1).drop_last() =~= fs.take(i as int));
            let (path, source) = &files[i];
            assert(fs.take(i + 1).last() == (path@, source@));
            let found = Self::analyse_file(path.as_str(), source.as_str());
            let ghost before = out@;
            let mut k: usize = 0;
            while k < found.len()
                invariant
                    k <= found@.len(),
                    tagged_view(out@) == tagged_view(before) + tagged_view(found@.take(k as int)),
                decreases found@.len() - k,
            {
                let ghost mid = out@;
                let (m, t) = &found[k];
                out.push((m.clone(), clone_tokens(t)));
                assert(tagged_view(out@) =~= tagged_view(mid).push((m@, views(t@))));
                assert(tagged_view(found@.take(k + 1)) =~= tagged_view(found@.take(k as int)).push(
                    (m@, views(t@)),
                ));
                k = k + 1;
            }
            assert(found@.take(k as int) =~= found@);
            i = i + 1;
        }
        assert(fs.take(i as int) =~= fs);
        out
    }

    /// The fragments that the source text of the file at `path` expects,
    /// each with the module of the file, in line order.
    pub fn analyse_file(path: &str, source: &str) -> (r: Vec<(String, Vec<String>)>)
        ensures
            tagged_view(r@) == fragments_of_lines(lines_of(source@)).map_values(
                |t: Seq<Seq<char>>| (module_of_path(path@), t),
            ),
    {
        let module = Self::transform_path_into_module(path);
        let chars = chars_of(source);
        let lines = split_lines(&chars);
        let ghost ls = lines@.map_values(|v: Vec<char>| v@);
        let ghost tag = |t: Seq<Seq<char>>| (module_of_path(path@), t);
        let mut out: Vec<(String, Vec<String>)> = Vec::new();
        let mut i: usize = 0;
        assert(ls.take(0) =~= Seq::<Seq<char>>::empty());
        assert(tagged_view(out@) =~= fragments_of_lines(ls.take(0)).map_values(tag));
        while i < lines.len()
            invariant
                i <= lines@.len(),
                ls == lines@.map_values(|v: Vec<char>| v@),
                ls == lines_of(source@),
                module@ == module_of_path(path@),
                tag == (|t: Seq<Seq<char>>| (module_of_path(path@), t)),
                tagged_view(out@) == fragments_of_lines(ls.take(i as int)).map_values(tag),
            decreases lines@.len() - i,
        {
            assert(ls.take(i + 1).drop_last() =~= ls.take(i as int));
            assert(ls.take(i + 1).last() == lines@[i as int]@);
            let found = Self::expansion_of_chars(&lines[i]);
            if let Some(v) = found {
                let ghost before = out@;
                out.push((module.clone(), v));
                assert(tagged_view(out@) =~= tagged_view(before).push((module@, views(v@))));
                assert(fragments_of_lines(ls.take(i + 1)) == fragments_of_lines(ls.take(i as int)).push(views(v@)));
                assert(fragments_of_lines(ls.take(i + 1)).map_values(tag) =~= fragments_of_lines(
                    ls.take(i as int),
                ).map_values(tag).push((module@, views(v@))));
            }
            i = i + 1;
        }
        assert(ls.take(i as int) =~= ls);
        out
    }
}

/// The conventional path of a module from its key in a partition: `mod`
/// (the root file) is `lib`, and a trailing `/mod` or `mod` is dropped.
pub open spec fn normalized_module_name(k: Seq<char>) -> Seq<char> {
    if k == seq!['m', 'o', 'd'] {
        seq!['l', 'i', 'b']
    } else if k.len() >= 4 && has_at(k, k.len() - 4, seq!['/', 'm', 'o', 'd']) {
        k.take(k.len() - 4)
    } else if k.len() >= 3 && has_at(k, k.len() - 3, seq!['m', 'o', 'd']) {
        k.take(k.len() - 3)
    } else {
        k
    }
}

/// Partition entries with their keys made module paths.
pub open spec fn renamed(es: Seq<(Seq<char>, Seq<Seq<char>>)>) -> Seq<(Seq<char>, Seq<Seq<char>>)> {
    es.map_values(|e: (Seq<char>, Seq<Seq<char>>)| (normalized_module_name(e.0), e.1))
}

/// The fragments one after the other.
pub open spec fn concat_fragments(fs: Seq<Seq<Seq<char>>>) -> Seq<Seq<char>>
    decreases fs.len(),
{
    if fs.len() == 0 {
        seq![]
    } else {
        concat_fragments(fs.drop_last()) + fs.last()
    }
}

/// The tokens filed under `key`, from its first entry.
pub open spec fn lookup(actual: Seq<(Seq<char>, Seq<Seq<char>>)>, key: Seq<char>) -> Option<
    Seq<Seq<char>>,
>
    decreases actual.len(),
{
    if actual.len() == 0 {
        None
    } else if actual[0].0 == key {
        Some(actual[0].1)
    } else {
        lookup(actual.drop_first(), key)
    }
}

/// Whether the actual expansion of a module is what its fragments expect.
pub open spec fn module_matches(
    group: (Seq<char>, Seq<Seq<Seq<char>>>),
    actual: Seq<(Seq<char>, Seq<Seq<char>>)>,
) -> bool {
    lookup(actual, group.0) == Some(concat_fragments(group.1))
}

/// A mismatch as plain values: the module, the expected stream, and the
/// actual stream if any.
pub open spec fn mismatch_view(m: ModuleMismatch) -> (Seq<char>, Seq<Seq<char>>, Option<
    Seq<Seq<char>>,
>) {
    (
        m.module@,
        views(m.expected@),
        match m.actual {
            Some(v) => Some(views(v@)),
            None => None,
        },
    )
}

/// Mismatches as plain values.
pub open spec fn mismatch_views(ms: Seq<ModuleMismatch>) -> Seq<
    (Seq<char>, Seq<Seq<char>>, Option<Seq<Seq<char>>>),
> {
    ms.map_values(|m: ModuleMismatch| mismatch_view(m))
}

/// Every expected module whose expansion differs, in order, with the
/// expected stream and the actual one.
pub open spec fn mismatch_report(
    expected: Seq<(Seq<char>, Seq<Seq<Seq<char>>>)>,
    actual: Seq<(Seq<char>, Seq<Seq<char>>)>,
) -> Seq<(Seq<char>, Seq<Seq<char>>, Option<Seq<Seq<char>>>)>
    decreases expected.len(),
{
    if expected.len() == 0 {
        seq![]
    } else {
        let init = mismatch_report(expected.drop_last(), actual);
        let g = expected.last();
        if module_matches(g, actual) {
            init
        } else {
            init.push((g.0, concat_fragments(g.1), lookup(actual, g.0)))
        }
    }
}

/// The tokens under `key` in `actual`, from its first entry.
pub fn lookup_tokens(actual: &Vec<(String, Vec<String>)>, key: &String) -> (r: Option<Vec<String>>)
    ensures
        match lookup(tagged_view(actual@), key@) {
            Some(t) => r matches Some(v) && views(v@) == t,
            None => r is None,
        },
{
    let ghost av = tagged_view(actual@);
    let mut i: usize = 0;
    assert(av.skip(0) =~= av);
    while i < actual.len()
        invariant
            i <= actual@.len(),
            av == tagged_view(actual@),
            lookup(av, key@) == lookup(av.skip(i as int), key@),
        decreases actual@.len() - i,
    {
        assert(av.skip(i as int)[0] == (actual@[i as int].0@, views(actual@[i as int].1@)));
        if actual[i].0.eq(key) {
            return Some(clone_tokens(&actual[i].1));
        }
        assert(av.skip(i as int).drop_first() =~= av.skip(i + 1));
        i = i + 1;
    }
    None
}

fn concat_tokens(fs: &Vec<Vec<String>>) -> (r: Vec<String>)
    ensures
        views(r@) == concat_fragments(fragment_views(fs@)),
{
    let ghost fv = fragment_views(fs@);
    let mut out: Vec<String> = Vec::new();
    let mut i: usize = 0;
    assert(fv.take(0) =~= Seq::<Seq<Seq<char>>>::empty());
    assert(views(out@) =~= Seq::<Seq<char>>::empty());
    while i < fs.len()
        invariant
            i <= fs@.len(),
            fv == fragment_views(fs@),
            views(out@) == concat_fragments(fv.take(i as int)),
        decreases fs@.len() - i,
    {
        assert(fv.take(i + 1).drop_last() =~= fv.take(i as int));
        assert(fv.take(i + 1).last() == views(fs@[i as int]@));
        let ghost before = out@;
        let f = &fs[i];
        let mut k: usize = 0;
        while k < f.len()
            invariant
                k <= f@.len(),
                views(out@) == views(before) + views(f@.take(k as int)),
            decreases f@.len() - k,
        {
            let ghost mid = out@;
            out.push(f[k].clone());
            assert(views(out@) =~= views(mid).push(f@[k as int]@));
            assert(views(f@.take(k + 1)) =~= views(f@.take(k as int)).push(f@[k as int]@));
            k = k + 1;
        }
        assert(f@.take(k as int) =~= f@);
        i = i + 1;
    }
    assert(fv.take(i as int) =~= fv);
    out
}

/// Compares the expected expansion of each module with the actual one:
/// the concatenated fragments must equal, token for token, the stream
/// filed under the module. Every module that differs, or has no stream, is
/// reported with both streams.
pub fn verify_expansion(
    expected: &Vec<(String, Vec<Vec<String>>)>,
    actual: &Vec<(String, Vec<String>)>,
) -> (r: Result<(), TestingError>)
    ensures
        mismatch_report(groups_view(expected@), tagged_view(actual@)).len() == 0 ==> r is Ok,
        mismatch_report(groups_view(expected@), tagged_view(actual@)).len() > 0 ==> (r matches Err(
            TestingError::ExpansionMismatch { mismatches },
        ) && mismatch_views(mismatches@) == mismatch_report(
            groups_view(expected@),
            tagged_view(actual@),
        )),
{
    let ghost ev = groups_view(expected@);
    let ghost av = tagged_view(actual@);
    let mut found: Vec<ModuleMismatch> = Vec::new();
    let mut i: usize = 0;
    assert(ev.take(0) =~= Seq::<(Seq<char>, Seq<Seq<Seq<char>>>)>::empty());
    assert(mismatch_views(found@) =~= Seq::<(Seq<char>, Seq<Seq<char>>, Option<Seq<Seq<char>>>)>::empty());
    while i < expected.len()
        invariant
            i <= expected@.len(),
            ev == groups_view(expected@),
            av == tagged_view(actual@),
            mismatch_views(found@) == mismatch_report(ev.take(i as int), av),
        decreases expected@.len() - i,
    {
        let (module, fragments) = &expected[i];
        assert(ev[i as int] == (module@, fragment_views(fragments@)));
        assert(ev.take(i + 1).drop_last() =~= ev.take(i as int));
        assert(ev.take(i + 1).last() == ev[i as int]);
        let want = concat_tokens(fragments);
        let got = lookup_tokens(actual, module);
        let same = match &got {
            Some(v) => tokens_equal(&want, v),
            None => false,
        };
        if !same {
            let ghost before = found@;
            let m = ModuleMismatch { module: module.clone(), expected: want, actual: got };
            found.push(m);
            assert(mismatch_views(found@) =~= mismatch_views(before).push(mismatch_view(m)));
        }
        i = i + 1;
    }
    assert(ev.take(i as int) =~= ev);
    if found.len() == 0 {
        Ok(())
    } else {
        Err(TestingError::ExpansionMismatch { mismatches: found })
    }
}

fn tokens_equal(a: &Vec<String>, b: &Vec<String>) -> (r: bool)
    ensures
        r == (views(a@) == views(b@)),
{
    if a.len() != b.len() {
        assert(views(a@).len() != views(b@).len());
        return false;
    }
    let mut i: usize = 0;
    while i < a.len()
        invariant
            i <= a@.len(),
            a@.len() == b@.len(),
            forall|k: int| 0 <= k < i ==> a@[k]@ == b@[k]@,
        decreases a@.len() - i,
    {
        if !a[i].eq(&b[i]) {
            assert(views(a@)[i as int] != views(b@)[i as int]);
            return false;
        }
        i = i + 1;
    }
    assert(views(a@) =~= views(b@));
    true
}

/// The check of one crate's expansion against its expected fragments.
pub struct CheckExpansionStep {
    pub crate_path: String,
    pub expected_expansions: Vec<(String, Vec<Vec<String>>)>,
}

impl CheckExpansionStep {
    pub fn new(crate_path: String, expected_expansions: Vec<(String, Vec<Vec<String>>)>) -> (r: Self)
        ensures
            r.crate_path == crate_path,
            r.expected_expansions == expected_expansions,
    {
        CheckExpansionStep { crate_path, expected_expansions }
    }

    /// The path of a module from its key in a partition.
    pub fn normalize_module_name(name: &str) -> (r: String)
        ensures
            r@ == normalized_module_name(name@),
    {
        let k = chars_of(name);
        let n = k.len();
        if n == 3 && matches_at(&k, 0, &['m', 'o', 'd']) {
            assert(k@.subrange(0, 3) =~= k@);
            let mut out = String::new();
            crate::text::push_char(&mut out, 'l');
            crate::text::push_char(&mut out, 'i');
            crate::text::push_char(&mut out, 'b');
            assert(out@ =~= seq!['l', 'i', 'b']);
            return out;
        }
        proof {
            if k@ == seq!['m', 'o', 'd'] {
                assert(k@.subrange(0, 3) =~= k@);
            }
        }
        if n >= 4 && matches_at(&k, n - 4, &['/', 'm', 'o', 'd']) {
            string_of(&k, 0, n - 4)
        } else if n >= 3 && matches_at(&k, n - 3, &['m', 'o', 'd']) {
            string_of(&k, 0, n - 3)
        } else {
            assert(k@.subrange(0, n as int) =~= k@);
            string_of(&k, 0, n)
        }
    }

    /// The token stream of each module file of a crate, from its expanded
    /// source `code` and the paths of its source files relative to the
    /// source root: `code` is parsed into its module declarations
    /// (`parse_of`), the modules that have a file of their own are cut out
    /// of the text that declares them, and each stream is filed under the
    /// module's path (`lib` for the root), the first stream under a path
    /// kept where the text gives two. `UnableToParseExpansion` exactly
    /// where the braces of `code` do not balance; no other check of its
    /// syntax is made.
    pub fn analyse_actual_expansion(code: &str, source_files: &Vec<String>) -> (r: Result<
        Vec<(String, Vec<String>)>,
        TestingError,
    >)
        ensures
            r matches Ok(v) ==> exists|d: ModuleDecl|
                {
                    &&& parse_of(code@, d)
                    &&& tagged_view(v@) == first_entries(
                        renamed(partitioned(code@, views(source_files@), seq![], d)),
                    )
                },
            r matches Ok(v) ==> entry_keys(tagged_view(v@)).no_duplicates(),
            r matches Err(e) ==> e is UnableToParseExpansion,
            r is Ok <==> braces_balance(code@),
    {
        let text = chars_of(code);
        let root = parse_modules(&text)?;
        let dir = String::new();
        let parts = partition(&text, source_files, &dir, &root);
        let ghost pv = tagged_view(parts@);
        let mut out: Vec<(String, Vec<String>)> = Vec::new();
        let mut keys: Vec<String> = Vec::new();
        let mut i: usize = 0;
        assert(renamed(pv.take(0)) =~= Seq::<(Seq<char>, Seq<Seq<char>>)>::empty());
        assert(tagged_view(out@) =~= Seq::<(Seq<char>, Seq<Seq<char>>)>::empty());
        assert(views(keys@) =~= Seq::<Seq<char>>::empty());
        while i < parts.len()
            invariant
                i <= parts@.len(),
                pv == tagged_view(parts@),
                tagged_view(out@) == first_entries(renamed(pv.take(i as int))),
                views(keys@) == entry_keys(tagged_view(out@)),
            decreases parts@.len() - i,
        {
            let (key, toks) = &parts[i];
            let name = Self::normalize_module_name(key.as_str());
            assert(renamed(pv.take(i + 1)) =~= renamed(pv.take(i as int)).push(
                (normalized_module_name(key@), views(toks@)),
            ));
            assert(renamed(pv.take(i + 1)).drop_last() =~= renamed(pv.take(i as int)));
            if !contains_string(&keys, &name) {
                let ghost before = out@;
                let ghost before_keys = keys@;
                keys.push(name.clone());
                out.push((name, clone_tokens(toks)));
                assert(tagged_view(out@) =~= tagged_view(before).push((name@, views(toks@))));
                assert(views(keys@) =~= views(before_keys).push(name@));
                assert(entry_keys(tagged_view(out@)) =~= entry_keys(tagged_view(before)).push(name@));
            }
            i = i + 1;
        }
        assert(pv.take(i as int) =~= pv);
        proof {
            lemma_first_entries_distinct(renamed(pv));
        }
        assert(dir@ =~= Seq::<char>::empty());
        Ok(out)
    }

    /// The outcome of one expansion run, from whether it succeeded, its
    /// output (the expanded source) and error output, and the paths of the
    /// crate's source files relative to the source root.
    pub fn evaluate(
        &self,
        build_succeeded: bool,
        stdout: String,
        stderr: String,
        source_files: &Vec<String>,
    ) -> (r: Result<(), TestingError>)
        ensures
            !build_succeeded ==> (r matches Err(TestingError::CrateBuildFailed { stdout: o, stderr: e })
                && o == stdout && e == stderr),
            build_succeeded ==> (r matches Err(e) ==> (e is UnableToParseExpansion
                || e is ExpansionMismatch)),
            build_succeeded ==> (r matches Err(TestingError::UnableToParseExpansion)
                <==> !braces_balance(stdout@)),
            (build_succeeded && r matches Err(TestingError::ExpansionMismatch { .. })) ==> exists|
                d: ModuleDecl,
            |
                {
                    &&& parse_of(stdout@, d)
                    &&& mismatch_report(
                        groups_view(self.expected_expansions@),
                        first_entries(renamed(partitioned(stdout@, views(source_files@), seq![], d))),
                    ).len() > 0
                },
            build_succeeded && r is Ok ==> exists|d: ModuleDecl|
                {
                    &&& parse_of(stdout@, d)
                    &&& mismatch_report(
                        groups_view(self.expected_expansions@),
                        first_entries(renamed(partitioned(stdout@, views(source_files@), seq![], d))),
                    ).len() == 0
                },
    {
        if !build_succeeded {
            return Err(TestingError::CrateBuildFailed { stdout, stderr });
        }
        let actual = Self::analyse_actual_expansion(stdout.as_str(), source_files)?;
        let r = verify_expansion(&self.expected_expansions, &actual);
        proof {
            let d = choose|d: ModuleDecl|
                {
                    &&& parse_of(stdout@, d)
                    &&& tagged_view(actual@) == first_entries(
                        renamed(partitioned(stdout@, views(source_files@), seq![], d)),
                    )
                };
            let parts = first_entries(renamed(partitioned(stdout@, views(source_files@), seq![], d)));
            assert(mismatch_report(groups_view(self.expected_expansions@), parts).len() > 0
                <==> r is Err);
        }
        r
    }
}

} // verus!
