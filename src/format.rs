//! Placeholder formats: `{{}}` holes filled in placeholder order, and the
//! tables of argument, environment and template fills built while compiling.
use vstd::prelude::*;
use vstd::string::{StrSliceExecFns, StringExecFns};
use crate::seqs::{first_index, lemma_first_index_found, lemma_first_index_none};

verus! {

/// A format with `{{}}` holes and the fill of each placeholder, ordered by
/// placeholder index without repeats.
#[derive(Clone, Debug)]
pub struct FormatFill {
    pub format: String,
    pub placeholder_fill_map: Vec<(usize, Option<String>)>,
}

/// The text of an optional string.
pub open spec fn opt_view(o: Option<String>) -> Option<Seq<char>> {
    match o {
        Some(s) => Some(s@),
        None => None,
    }
}

/// The fills of a format as text.
pub open spec fn fills_view(v: Seq<(usize, Option<String>)>) -> Seq<(usize, Option<Seq<char>>)> {
    v.map_values(|p: (usize, Option<String>)| (p.0, opt_view(p.1)))
}

impl View for FormatFill {
    type V = (Seq<char>, Seq<(usize, Option<Seq<char>>)>);

    open spec fn view(&self) -> Self::V {
        (self.format@, fills_view(self.placeholder_fill_map@))
    }
}

/// Entries whose key is at least `k`.
pub open spec fn key_at_least<V>(k: usize) -> spec_fn((usize, V)) -> bool {
    |e: (usize, V)| e.0 >= k
}

/// Whether the keys of `s` strictly ascend.
pub open spec fn keys_ascend<V>(s: Seq<(usize, V)>) -> bool {
    forall|i: int, j: int| 0 <= i < j < s.len() ==> s[i].0 < s[j].0
}

/// `s`, kept in ascending key order, with the entry for `k` set to `f` of its
/// former value (or of nothing, where `k` was absent).
pub open spec fn assoc_update<V>(s: Seq<(usize, V)>, k: usize, f: spec_fn(Option<V>) -> V) -> Seq<(usize, V)> {
    let p = first_index(s, key_at_least::<V>(k));
    if p >= 0 && p < s.len() && s[p].0 == k {
        s.update(p, (k, f(Some(s[p].1))))
    } else if p >= 0 && p < s.len() {
        s.insert(p, (k, f(None)))
    } else {
        s.push((k, f(None)))
    }
}

/// `s` with placeholder `k` filled by `v`.
pub open spec fn assoc_set<V>(s: Seq<(usize, V)>, k: usize, v: V) -> Seq<(usize, V)> {
    assoc_update(s, k, |o: Option<V>| v)
}

/// Position `p` of `s` starts a `{{}}` hole.
pub open spec fn is_hole_at(s: Seq<char>, p: int) -> bool {
    &&& 0 <= p
    &&& p + 4 <= s.len()
    &&& s[p] == '{'
    &&& s[p + 1] == '{'
    &&& s[p + 2] == '}'
    &&& s[p + 3] == '}'
}

/// The first hole of `s` at or after `p`, or -1.
pub open spec fn hole_from(s: Seq<char>, p: int) -> int
    decreases s.len() - p,
{
    if p < 0 || p + 4 > s.len() {
        -1
    } else if is_hole_at(s, p) {
        p
    } else {
        hole_from(s, p + 1)
    }
}

/// `s` with its first hole replaced by `w`.
pub open spec fn replace_first(s: Seq<char>, w: Seq<char>) -> Seq<char> {
    let p = hole_from(s, 0);
    if p < 0 {
        s
    } else {
        s.subrange(0, p) + w + s.subrange(p + 4, s.len() as int)
    }
}

/// The text of a fill: empty where there is none.
pub open spec fn fill_text(o: Option<Seq<char>>) -> Seq<char> {
    match o {
        Some(s) => s,
        None => Seq::empty(),
    }
}

/// `format` with its holes replaced, one at a time from the front, by the
/// fills in placeholder order.
pub open spec fn render(format: Seq<char>, fills: Seq<(usize, Option<Seq<char>>)>) -> Seq<char>
    decreases fills.len(),
{
    if fills.len() == 0 {
        format
    } else {
        render(replace_first(format, fill_text(fills[0].1)), fills.drop_first())
    }
}

/// Replaces the first `{{}}` of `s` by `w`.
pub fn replace_first_hole(s: &String, w: &str) -> (r: String)
    ensures
        r@ == replace_first(s@, w@),
{
    let t = s.as_str();
    let n = t.unicode_len();
    let mut p: usize = 0;
    while p < n && n - p >= 4
        invariant
            n == s@.len(),
            t@ == s@,
            hole_from(s@, 0) == hole_from(s@, p as int),
            p <= n,
        decreases n - p,
    {
        if t.get_char(p) == '{' && t.get_char(p + 1) == '{' && t.get_char(p + 2) == '}' && t.get_char(p + 3) == '}' {
            let mut r = String::from_str(t.substring_char(0, p));
            r.append(w);
            r.append(t.substring_char(p + 4, n));
            return r;
        }
        p += 1;
    }
    String::from_str(t)
}

/// The format of `f` with its holes filled.
pub fn render_format(f: &FormatFill) -> (r: String)
    ensures
        r@ == render(f@.0, f@.1),
{
    let mut r = f.format.clone();
    let mut i: usize = 0;
    let ghost all = f@.1;
    assert(all.subrange(0, all.len() as int) =~= all);
    while i < f.placeholder_fill_map.len()
        invariant
            all == f@.1,
            all.len() == f.placeholder_fill_map@.len(),
            i <= all.len(),
            render(r@, all.subrange(i as int, all.len() as int)) == render(f@.0, all),
        decreases all.len() - i,
    {
        proof {
            let rest = all.subrange(i as int, all.len() as int);
            assert(rest.drop_first() =~= all.subrange(i + 1, all.len() as int));
            assert(rest[0] == all[i as int]);
        }
        let w = match &f.placeholder_fill_map[i].1 {
            Some(x) => x.clone(),
            None => String::new(),
        };
        r = replace_first_hole(&r, w.as_str());
        i += 1;
    }
    proof {
        assert(all.subrange(all.len() as int, all.len() as int) =~= Seq::<(usize, Option<Seq<char>>)>::empty());
    }
    r
}

/// The first position of `v` whose key is at least `k`, if any.
fn position_at_least<V>(v: &Vec<(usize, V)>, k: usize) -> (r: usize)
    ensures
        r <= v@.len(),
        r < v@.len() ==> r as int == first_index(v@, key_at_least::<V>(k)),
        r == v@.len() ==> first_index(v@, key_at_least::<V>(k)) == -1,
{
    let mut i: usize = 0;
    while i < v.len()
        invariant
            i <= v@.len(),
            forall|j: int| 0 <= j < i ==> !key_at_least::<V>(k)(#[trigger] v@[j]),
        decreases v@.len() - i,
    {
        if v[i].0 >= k {
            proof {
                lemma_first_index_found(v@, key_at_least::<V>(k), i as int);
            }
            return i;
        }
        i += 1;
    }
    proof {
        lemma_first_index_none(v@, key_at_least::<V>(k));
    }
    i
}

impl FormatFill {
    /// A format with no fills yet.
    pub fn new(format: String) -> (r: FormatFill)
        ensures
            r@.0 == format@,
            r@.1.len() == 0,
    {
        let r = FormatFill { format, placeholder_fill_map: Vec::new() };
        assert(r@.1 =~= Seq::empty());
        r
    }

    /// Fills placeholder `k` with `v`, replacing an earlier fill of it.
    pub fn set_fill(&mut self, k: usize, v: Option<String>)
        ensures
            final(self)@.0 == old(self)@.0,
            final(self)@.1 == assoc_set(old(self)@.1, k, opt_view(v)),
    {
        let ghost before = self@.1;
        let p = position_at_least(&self.placeholder_fill_map, k);
        let ghost vv = opt_view(v);
        proof {
            lemma_first_index_views(self.placeholder_fill_map@, k);
        }
        if p < self.placeholder_fill_map.len() && self.placeholder_fill_map[p].0 == k {
            self.placeholder_fill_map.set(p, (k, v));
            assert(self@.1 =~= before.update(p as int, (k, vv)));
        } else if p < self.placeholder_fill_map.len() {
            self.placeholder_fill_map.insert(p, (k, v));
            assert(self@.1 =~= before.insert(p as int, (k, vv)));
        } else {
            self.placeholder_fill_map.push((k, v));
            assert(self@.1 =~= before.push((k, vv)));
        }
    }
}

/// Searching the fills by key finds the same position as searching their text.
proof fn lemma_first_index_views(v: Seq<(usize, Option<String>)>, k: usize)
    ensures
        first_index(fills_view(v), key_at_least::<Option<Seq<char>>>(k)) == first_index(
            v,
            key_at_least::<Option<String>>(k),
        ),
    decreases v.len(),
{
    if v.len() > 0 {
        lemma_first_index_views(v.drop_first(), k);
        assert(fills_view(v).drop_first() =~= fills_view(v.drop_first()));
    }
}

/// Entries whose key is `k`.
pub open spec fn key_is<V>(k: Seq<char>) -> spec_fn((Seq<char>, V)) -> bool {
    |e: (Seq<char>, V)| e.0 == k
}

/// `s` with the entry for `k` set to `f` of its former value; a new key goes
/// last.
pub open spec fn str_update<V>(s: Seq<(Seq<char>, V)>, k: Seq<char>, f: spec_fn(Option<V>) -> V) -> Seq<(Seq<char>, V)> {
    let p = first_index(s, key_is::<V>(k));
    if p >= 0 && p < s.len() {
        s.update(p, (k, f(Some(s[p].1))))
    } else {
        s.push((k, f(None)))
    }
}

/// The format entry after anchoring it (`format` where it is new) and
/// applying an optional fill.
pub open spec fn fill_step(
    o: Option<(Seq<char>, Seq<(usize, Option<Seq<char>>)>)>,
    format: Seq<char>,
    fill: Option<(usize, Option<Seq<char>>)>,
) -> (Seq<char>, Seq<(usize, Option<Seq<char>>)>) {
    let base = match o {
        Some(ff) => ff,
        None => (format, Seq::empty()),
    };
    match fill {
        Some((k, v)) => (base.0, assoc_set(base.1, k, v)),
        None => base,
    }
}

/// The update of one format entry: anchor with `format` where new, then
/// apply `fill`.
pub open spec fn fill_with(
    format: Seq<char>,
    fill: Option<(usize, Option<Seq<char>>)>,
) -> spec_fn(Option<(Seq<char>, Seq<(usize, Option<Seq<char>>)>)>) -> (Seq<char>, Seq<(usize, Option<Seq<char>>)>) {
    |o: Option<(Seq<char>, Seq<(usize, Option<Seq<char>>)>)>| fill_step(o, format, fill)
}

/// The update of one template entry: key `key` set to `v`.
pub open spec fn set_template_key(
    key: Seq<char>,
    v: Option<Seq<char>>,
) -> spec_fn(Option<Seq<(Seq<char>, Option<Seq<char>>)>>) -> Seq<(Seq<char>, Option<Seq<char>>)> {
    |o: Option<Seq<(Seq<char>, Option<Seq<char>>)>>| str_update(
        match o {
            Some(kv) => kv,
            None => Seq::empty(),
        },
        key,
        |x: Option<Option<Seq<char>>>| v,
    )
}

/// A fill as text.
pub open spec fn fill_view(fill: Option<(usize, Option<String>)>) -> Option<(usize, Option<Seq<char>>)> {
    match fill {
        Some((k, v)) => Some((k, opt_view(v))),
        None => None,
    }
}

/// The argument table as text.
pub open spec fn arg_table_view(v: Seq<(usize, FormatFill)>) -> Seq<(usize, (Seq<char>, Seq<(usize, Option<Seq<char>>)>))> {
    v.map_values(|e: (usize, FormatFill)| (e.0, e.1@))
}

/// The environment table as text.
pub open spec fn env_table_view(v: Seq<(String, FormatFill)>) -> Seq<(Seq<char>, (Seq<char>, Seq<(usize, Option<Seq<char>>)>))> {
    v.map_values(|e: (String, FormatFill)| (e.0@, e.1@))
}

/// One template's key/value pairs as text.
pub open spec fn kv_view(v: Seq<(String, Option<String>)>) -> Seq<(Seq<char>, Option<Seq<char>>)> {
    v.map_values(|e: (String, Option<String>)| (e.0@, opt_view(e.1)))
}

/// The template table, keyed by template descriptor, with its pairs as text.
pub open spec fn templates_view(v: Seq<(String, Vec<(String, Option<String>)>)>) -> Seq<(String, Seq<(Seq<char>, Option<Seq<char>>)>)> {
    v.map_values(|e: (String, Vec<(String, Option<String>)>)| (e.0, kv_view(e.1@)))
}

/// Entries whose name reads `k`.
pub open spec fn name_is<V>(k: Seq<char>) -> spec_fn((String, V)) -> bool {
    |e: (String, V)| e.0@ == k
}

/// `s` with the entry named like `k` set to `f` of its former value (its name
/// kept); a new name goes last.
pub open spec fn name_update<V>(s: Seq<(String, V)>, k: String, f: spec_fn(Option<V>) -> V) -> Seq<(String, V)> {
    let p = first_index(s, name_is::<V>(k@));
    if 0 <= p < s.len() {
        s.update(p, (s[p].0, f(Some(s[p].1))))
    } else {
        s.push((k, f(None)))
    }
}

/// Anchors the argument of sort `sort` (with `format` where it is new) and
/// applies an optional fill to it; the table stays in sort order.
pub fn fill_argument(table: &mut Vec<(usize, FormatFill)>, sort: usize, format: &String, fill: Option<(usize, Option<String>)>)
    ensures
        arg_table_view(final(table)@) == assoc_update(
            arg_table_view(old(table)@),
            sort,
            fill_with(format@, fill_view(fill)),
        ),
{
    let ghost before = arg_table_view(table@);
    let ghost f = fill_with(format@, fill_view(fill));
    let p = position_at_least(table, sort);
    proof {
        lemma_first_index_arg_views(table@, sort);
    }
    if p < table.len() && table[p].0 == sort {
        let (k, mut ff) = table.remove(p);
        if let Some((i, v)) = fill {
            ff.set_fill(i, v);
        }
        table.insert(p, (k, ff));
        assert(arg_table_view(table@) =~= before.update(p as int, (sort, f(Some(before[p as int].1)))));
    } else {
        let mut ff = FormatFill::new(format.clone());
        assert(ff@.1 =~= Seq::<(usize, Option<Seq<char>>)>::empty());
        if let Some((i, v)) = fill {
            ff.set_fill(i, v);
        }
        if p < table.len() {
            table.insert(p, (sort, ff));
            assert(arg_table_view(table@) =~= before.insert(p as int, (sort, f(None))));
        } else {
            table.push((sort, ff));
            assert(arg_table_view(table@) =~= before.push((sort, f(None))));
        }
    }
}

proof fn lemma_first_index_arg_views(v: Seq<(usize, FormatFill)>, k: usize)
    ensures
        first_index(arg_table_view(v), key_at_least::<(Seq<char>, Seq<(usize, Option<Seq<char>>)>)>(k))
            == first_index(v, key_at_least::<FormatFill>(k)),
    decreases v.len(),
{
    if v.len() > 0 {
        lemma_first_index_arg_views(v.drop_first(), k);
        assert(arg_table_view(v).drop_first() =~= arg_table_view(v.drop_first()));
    }
}

/// The first position of `v` whose key is `k`, if any.
fn position_of_key<V>(v: &Vec<(String, V)>, k: &String) -> (r: usize)
    ensures
        r <= v@.len(),
        forall|j: int| 0 <= j < r ==> (#[trigger] v@[j]).0@ != k@,
        r < v@.len() ==> v@[r as int].0@ == k@,
{
    let mut i: usize = 0;
    while i < v.len()
        invariant
            i <= v@.len(),
            forall|j: int| 0 <= j < i ==> (#[trigger] v@[j]).0@ != k@,
        decreases v@.len() - i,
    {
        if v[i].0 == *k {
            return i;
        }
        i += 1;
    }
    i
}

/// Anchors the environment variable `key` (with `format` where it is new)
/// and applies an optional fill to it; new keys go last.
pub fn fill_environment(table: &mut Vec<(String, FormatFill)>, key: &String, format: &String, fill: Option<(usize, Option<String>)>)
    ensures
        env_table_view(final(table)@) == str_update(
            env_table_view(old(table)@),
            key@,
            fill_with(format@, fill_view(fill)),
        ),
{
    let ghost before = env_table_view(table@);
    let ghost f = fill_with(format@, fill_view(fill));
    let p = position_of_key(table, key);
    proof {
        let q = key_is::<(Seq<char>, Seq<(usize, Option<Seq<char>>)>)>(key@);
        assert forall|j: int| 0 <= j < p implies !q(#[trigger] before[j]) by {
            assert(before[j].0 == table@[j].0@);
        }
        if p < table@.len() {
            lemma_first_index_found(before, q, p as int);
        } else {
            lemma_first_index_none(before, q);
        }
    }
    if p < table.len() {
        let (k, mut ff) = table.remove(p);
        if let Some((i, v)) = fill {
            ff.set_fill(i, v);
        }
        table.insert(p, (k, ff));
        assert(env_table_view(table@) =~= before.update(p as int, (key@, f(Some(before[p as int].1)))));
    } else {
        let mut ff = FormatFill::new(format.clone());
        assert(ff@.1 =~= Seq::<(usize, Option<Seq<char>>)>::empty());
        if let Some((i, v)) = fill {
            ff.set_fill(i, v);
        }
        table.push((key.clone(), ff));
        assert(env_table_view(table@) =~= before.push((key@, f(None))));
    }
}

/// Sets `key` of template `desc` to `v`; new templates and keys go last.
pub fn fill_template(table: &mut Vec<(String, Vec<(String, Option<String>)>)>, desc: &String, key: &String, v: Option<String>)
    ensures
        templates_view(final(table)@) == name_update(
            templates_view(old(table)@),
            *desc,
            set_template_key(key@, opt_view(v)),
        ),
{
    let ghost before = templates_view(table@);
    let p = position_of_key(table, desc);
    proof {
        let q = name_is::<Seq<(Seq<char>, Option<Seq<char>>)>>(desc@);
        assert forall|j: int| 0 <= j < p implies !q(#[trigger] before[j]) by {
            assert(before[j].0 == table@[j].0);
        }
        if p < table@.len() {
            lemma_first_index_found(before, q, p as int);
        } else {
            lemma_first_index_none(before, q);
        }
    }
    let existed = p < table.len();
    let (d, mut kv) = if existed {
        table.remove(p)
    } else {
        (desc.clone(), Vec::new())
    };
    let ghost kv_before = kv_view(kv@);
    proof {
        if p >= before.len() {
            assert(kv_before =~= Seq::empty());
        }
    }
    let q = position_of_key(&kv, key);
    proof {
        let pk = key_is::<Option<Seq<char>>>(key@);
        assert forall|j: int| 0 <= j < q implies !pk(#[trigger] kv_before[j]) by {
            assert(kv_before[j].0 == kv@[j].0@);
        }
        if q < kv@.len() {
            lemma_first_index_found(kv_before, pk, q as int);
        } else {
            lemma_first_index_none(kv_before, pk);
        }
    }
    if q < kv.len() {
        kv.set(q, (key.clone(), v));
        assert(kv_view(kv@) =~= kv_before.update(q as int, (key@, opt_view(v))));
    } else {
        kv.push((key.clone(), v));
        assert(kv_view(kv@) =~= kv_before.push((key@, opt_view(v))));
    }
    if existed {
        table.insert(p, (d, kv));
        assert(d == before[p as int].0);
        assert(templates_view(table@) =~= before.update(p as int, (d, kv_view(kv@))));
    } else {
        table.push((d, kv));
        assert(templates_view(table@) =~= before.push((*desc, kv_view(kv@))));
    }
}

} // verus!
