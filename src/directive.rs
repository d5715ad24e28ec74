use vstd::prelude::*;

use crate::level_name::{level_named, parse_level_name};
use crate::severity::Severity;
use crate::text::chars_of;

verus! {

/// One parsed directive: a minimum severity for a module scope, or for every
/// module when `module` is `None`.
#[derive(Clone, Debug)]
pub struct Directive {
    pub module: Option<Vec<char>>,
    pub level: Severity,
}

/// The mathematical value of a directive.
pub struct DirectiveModel {
    pub module: Option<Seq<char>>,
    pub level: Severity,
}

impl View for Directive {
    type V = DirectiveModel;

    open spec fn view(&self) -> DirectiveModel {
        DirectiveModel {
            module: match self.module {
                Some(m) => Some(m@),
                None => None,
            },
            level: self.level,
        }
    }
}

/// The characters that end one directive: `,` and `;`.
pub open spec fn is_separator(c: char) -> bool {
    c == ',' || c == ';'
}

/// The characters that a split cuts at: `=` when `assign`, else the separators.
pub open spec fn is_cut(c: char, assign: bool) -> bool {
    if assign {
        c == '='
    } else {
        is_separator(c)
    }
}

/// The pieces of `s` between cut characters, in order; there is always one
/// more piece than cut characters, and a piece may be empty.
pub open spec fn split_by(s: Seq<char>, assign: bool) -> Seq<Seq<char>>
    decreases s.len(),
{
    if s.len() == 0 {
        seq![Seq::<char>::empty()]
    } else {
        let init = split_by(s.drop_last(), assign);
        if is_cut(s.last(), assign) {
            init.push(Seq::<char>::empty())
        } else {
            init.update(init.len() - 1, init.last().push(s.last()))
        }
    }
}

/// The directive that one entry denotes: `level` for every module, or
/// `module=level` for a non-empty module path. Anything else is malformed and
/// denotes nothing.
pub open spec fn parse_entry(e: Seq<char>) -> Option<DirectiveModel> {
    let parts = split_by(e, true);
    if parts.len() == 1 {
        match level_named(e) {
            Some(l) => Some(DirectiveModel { module: None, level: l }),
            None => None,
        }
    } else if parts.len() == 2 && parts[0].len() > 0 {
        match level_named(parts[1]) {
            Some(l) => Some(DirectiveModel { module: Some(parts[0]), level: l }),
            None => None,
        }
    } else {
        None
    }
}

/// The directives that a sequence of entries denotes, in order; malformed
/// entries are left out.
pub open spec fn parse_entries(es: Seq<Seq<char>>) -> Seq<DirectiveModel>
    decreases es.len(),
{
    if es.len() == 0 {
        Seq::empty()
    } else {
        let rest = parse_entries(es.drop_last());
        match parse_entry(es.last()) {
            Some(d) => rest.push(d),
            None => rest,
        }
    }
}

/// The directives of a directive string: its `,`- or `;`-separated entries,
/// each parsed on its own.
pub open spec fn parse_spec(s: Seq<char>) -> Seq<DirectiveModel> {
    parse_entries(split_by(s, false))
}

proof fn lemma_split_nonempty(s: Seq<char>, assign: bool)
    ensures
        split_by(s, assign).len() >= 1,
    decreases s.len(),
{
    if s.len() > 0 {
        lemma_split_nonempty(s.drop_last(), assign);
    }
}

/// Every piece of a split is free of cut characters.
pub proof fn lemma_split_pieces_uncut(s: Seq<char>, assign: bool)
    ensures
        forall|k: int, j: int|
            0 <= k < split_by(s, assign).len() && 0 <= j < split_by(s, assign)[k].len() ==> !is_cut(
                #[trigger] split_by(s, assign)[k][j],
                assign,
            ),
    decreases s.len(),
{
    if s.len() > 0 {
        lemma_split_nonempty(s.drop_last(), assign);
        lemma_split_pieces_uncut(s.drop_last(), assign);
        let init = split_by(s.drop_last(), assign);
        if !is_cut(s.last(), assign) {
            let p = init.last().push(s.last());
            assert forall|j: int| 0 <= j < p.len() implies !is_cut(p[j], assign) by {
                if j < p.len() - 1 {
                    assert(p[j] == init[init.len() - 1][j]);
                }
            }
        }
    }
}

/// Splits `s` at every cut character (`=` when `assign`, else `,` and `;`).
pub fn split_chars(s: &Vec<char>, assign: bool) -> (r: Vec<Vec<char>>)
    ensures
        r@.len() == split_by(s@, assign).len(),
        forall|k: int| 0 <= k < r@.len() ==> #[trigger] r@[k]@ == split_by(s@, assign)[k],
{
    let mut done: Vec<Vec<char>> = Vec::new();
    let mut cur: Vec<char> = Vec::new();
    let mut i: usize = 0;
    while i < s.len()
        invariant
            0 <= i <= s@.len(),
            done@.len() + 1 == split_by(s@.take(i as int), assign).len(),
            forall|k: int| 0 <= k < done@.len() ==> #[trigger] done@[k]@ == split_by(
                s@.take(i as int),
                assign,
            )[k],
            cur@ == split_by(s@.take(i as int), assign).last(),
        decreases s@.len() - i,
    {
        let c = s[i];
        proof {
            assert(s@.take(i + 1).drop_last() == s@.take(i as int));
            lemma_split_nonempty(s@.take(i as int), assign);
        }
        let cut = if assign {
            c == '='
        } else {
            c == ',' || c == ';'
        };
        if cut {
            done.push(cur);
            cur = Vec::new();
        } else {
            cur.push(c);
        }
        i = i + 1;
    }
    proof {
        assert(s@.take(s@.len() as int) == s@);
        lemma_split_nonempty(s@, assign);
    }
    done.push(cur);
    done
}

/// Parses one entry; `None` when it is malformed.
pub fn parse_entry_chars(e: &Vec<char>) -> (r: Option<Directive>)
    ensures
        match r {
            Some(d) => parse_entry(e@) == Some(d@),
            None => parse_entry(e@) is None,
        },
{
    let parts = split_chars(e, true);
    if parts.len() == 1 {
        match parse_level_name(e) {
            Some(l) => Some(Directive { module: None, level: l }),
            None => None,
        }
    } else if parts.len() == 2 && parts[0].len() > 0 {
        match parse_level_name(&parts[1]) {
            Some(l) => Some(Directive { module: Some(parts[0].clone()), level: l }),
            None => None,
        }
    } else {
        None
    }
}

/// Parses a directive string: a `,`- or `;`-separated list of entries of the
/// form `[module-path=]level`. Malformed entries (an unknown level, an empty
/// module path, more than one `=`) are skipped; parsing never fails.
pub fn parse_directives(spec: &str) -> (r: Vec<Directive>)
    ensures
        r@.len() == parse_spec(spec@).len(),
        forall|k: int| 0 <= k < r@.len() ==> #[trigger] r@[k]@ == parse_spec(spec@)[k],
{
    let chars = chars_of(spec);
    let entries = split_chars(&chars, false);
    let ghost es = split_by(spec@, false);
    let mut r: Vec<Directive> = Vec::new();
    let mut i: usize = 0;
    while i < entries.len()
        invariant
            0 <= i <= entries@.len(),
            entries@.len() == es.len(),
            forall|k: int| 0 <= k < entries@.len() ==> #[trigger] entries@[k]@ == es[k],
            r@.len() == parse_entries(es.take(i as int)).len(),
            forall|k: int| 0 <= k < r@.len() ==> #[trigger] r@[k]@ == parse_entries(
                es.take(i as int),
            )[k],
        decreases entries@.len() - i,
    {
        proof {
            assert(es.take(i + 1).drop_last() == es.take(i as int));
            assert(es.take(i + 1).last() == es[i as int]);
        }
        match parse_entry_chars(&entries[i]) {
            Some(d) => r.push(d),
            None => {},
        }
        i = i + 1;
    }
    proof {
        assert(es.take(es.len() as int) == es);
    }
    r
}

/// Every directive that a list of entries denotes comes from one of the
/// entries, parsed on its own.
pub proof fn lemma_entries_each_from_one(es: Seq<Seq<char>>)
    ensures
        forall|k: int|
            0 <= k < parse_entries(es).len() ==> exists|j: int|
                0 <= j < es.len() && parse_entry(#[trigger] es[j]) == Some(
                    #[trigger] parse_entries(es)[k],
                ),
    decreases es.len(),
{
    if es.len() > 0 {
        lemma_entries_each_from_one(es.drop_last());
        let rest = parse_entries(es.drop_last());
        assert forall|k: int| 0 <= k < parse_entries(es).len() implies exists|j: int|
            0 <= j < es.len() && parse_entry(#[trigger] es[j]) == Some(
                #[trigger] parse_entries(es)[k],
            ) by {
            if k < rest.len() {
                let j = choose|j: int|
                    0 <= j < es.drop_last().len() && parse_entry(#[trigger] es.drop_last()[j])
                        == Some(#[trigger] rest[k]);
                assert(es[j] == es.drop_last()[j]);
            } else {
                assert(es[es.len() - 1] == es.last());
            }
        }
    }
}

/// Parsing applies no malformed entry: each directive parsed from `s` is what
/// one whole entry of `s` denotes on its own, and a module scope is never
/// empty and holds no `,`, `;` or `=`.
pub proof fn lemma_directives_well_formed(s: Seq<char>)
    ensures
        forall|k: int|
            0 <= k < parse_spec(s).len() ==> exists|j: int|
                0 <= j < split_by(s, false).len() && parse_entry(#[trigger] split_by(s, false)[j])
                    == Some(#[trigger] parse_spec(s)[k]),
        forall|k: int|
            0 <= k < parse_spec(s).len() && (#[trigger] parse_spec(s)[k]).module is Some ==> {
                let m = parse_spec(s)[k].module->Some_0;
                &&& m.len() > 0
                &&& forall|i: int| 0 <= i < m.len() ==> m[i] != '=' && !is_separator(m[i])
            },
{
    let es = split_by(s, false);
    lemma_entries_each_from_one(es);
    lemma_split_pieces_uncut(s, false);
    assert forall|k: int|
        0 <= k < parse_spec(s).len() && (#[trigger] parse_spec(s)[k]).module is Some implies {
        let m = parse_spec(s)[k].module->Some_0;
        &&& m.len() > 0
        &&& forall|i: int| 0 <= i < m.len() ==> m[i] != '=' && !is_separator(m[i])
    } by {
        let j = choose|j: int|
            0 <= j < es.len() && parse_entry(#[trigger] es[j]) == Some(#[trigger] parse_spec(s)[k]);
        let e = es[j];
        lemma_split_pieces_uncut(e, true);
        let parts = split_by(e, true);
        let m = parts[0];
        assert forall|i: int| 0 <= i < m.len() implies m[i] != '=' && !is_separator(m[i]) by {
            assert(!is_cut(split_by(e, true)[0][i], true));
            lemma_part_chars_from_entry(e, 0, i);
            let x = choose|x: int| 0 <= x < e.len() && e[x] == m[i];
            assert(!is_cut(es[j][x], false));
        }
    }
}

/// Appending characters that hold no cut character extends the last piece.
proof fn lemma_split_extend(t: Seq<char>, e: Seq<char>, assign: bool)
    requires
        forall|i: int| 0 <= i < e.len() ==> !is_cut(e[i], assign),
    ensures
        split_by(t + e, assign) == split_by(t, assign).update(
            split_by(t, assign).len() - 1,
            split_by(t, assign).last() + e,
        ),
    decreases e.len(),
{
    lemma_split_nonempty(t, assign);
    let st = split_by(t, assign);
    if e.len() == 0 {
        assert(t + e =~= t);
        assert(st.last() + e =~= st.last());
        assert(st.update(st.len() - 1, st.last() + e) =~= st);
    } else {
        let e0 = e.drop_last();
        lemma_split_extend(t, e0, assign);
        assert((t + e).drop_last() =~= t + e0);
        assert((t + e).last() == e.last());
        assert((st.last() + e0).push(e.last()) =~= st.last() + e);
        assert(split_by(t + e, assign) =~= st.update(st.len() - 1, st.last() + e));
    }
}

/// A malformed entry has no effect: adding one at the end of a directive text
/// leaves the parsed directives as they were.
pub proof fn lemma_malformed_entry_ignored(s: Seq<char>, e: Seq<char>)
    requires
        forall|i: int| 0 <= i < e.len() ==> !is_separator(e[i]),
        parse_entry(e) is None,
    ensures
        parse_spec(s.push(',') + e) == parse_spec(s),
{
    let t = s.push(',');
    assert(t.drop_last() =~= s);
    lemma_split_extend(t, e, false);
    let ss = split_by(s, false);
    assert(split_by(t, false) == ss.push(Seq::<char>::empty()));
    assert(Seq::<char>::empty() + e =~= e);
    let es = split_by(t + e, false);
    assert(es =~= ss.push(e));
    assert(es.drop_last() =~= ss);
}

/// Each character of a piece of a split is a character of the split string.
proof fn lemma_part_chars_from_entry(e: Seq<char>, k: int, i: int)
    requires
        0 <= k < split_by(e, true).len(),
        0 <= i < split_by(e, true)[k].len(),
    ensures
        exists|x: int| 0 <= x < e.len() && e[x] == split_by(e, true)[k][i],
    decreases e.len(),
{
    lemma_split_nonempty(e.drop_last(), true);
    if e.len() > 0 {
        let init = split_by(e.drop_last(), true);
        if is_cut(e.last(), true) {
            if k < init.len() {
                lemma_part_chars_from_entry(e.drop_last(), k, i);
                let x = choose|x: int| 0 <= x < e.drop_last().len() && e.drop_last()[x] == init[k][i];
                assert(e[x] == e.drop_last()[x]);
            }
        } else {
            if k < init.len() - 1 || i < init[k].len() {
                lemma_part_chars_from_entry(e.drop_last(), k, i);
                let x = choose|x: int| 0 <= x < e.drop_last().len() && e.drop_last()[x] == init[k][i];
                assert(e[x] == e.drop_last()[x]);
            } else {
                assert(e[e.len() - 1] == e.last());
            }
        }
    }
}

} // verus!
