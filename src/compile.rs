//! Compiling a software use-case node and its package manifest into a task.
use vstd::prelude::*;
use vstd::string::{StrSliceExecFns, StringExecFns};
use crate::content::{content_literal, get_content, lookup_text, InContent};
use crate::error::KernelError;
use crate::format::{
    assoc_update, fill_argument, fill_environment, fill_template, fill_view, fill_with,
    set_template_key, str_update, name_update, env_table_view, templates_view, opt_view,
    keys_ascend, render, render_format, FormatFill, arg_table_view, key_at_least,
};
use crate::model::{NodeInputSlotKind, NodeKind, NodeSpec, Requirements};
use crate::package::{
    FileOutAndAppointedBy, AppointedBy, Argument, CollectFrom, CollectRule, CollectTo, ComputingUsecase, Environment,
    FileKind, FileOutOrigin, FileRef, InputSlot, OutputSlot, SoftwareSpec, TextRef,
};
use crate::seqs::first_index;
use crate::slots::{out_named, prepared_ids};
use crate::task::{
    collect_view, file_view, files_view, CollectView, FileView, task_from_view, task_rule_view, task_to_view,
    FacilityKind, FileInfo, InFileForm, StdInKind, Task, TaskBody, TaskCollectFrom, TaskCollectRule,
    TaskCollectTo, TaskCommand,
};

verus! {

/// Argument materials with this descriptor.
pub open spec fn argument_named(d: Seq<char>) -> spec_fn(Argument) -> bool {
    |a: Argument| a.descriptor@ == d
}

/// Environment materials with this descriptor.
pub open spec fn environment_named(d: Seq<char>) -> spec_fn(Environment) -> bool {
    |e: Environment| e.descriptor@ == d
}

/// Characters that may stand between a template tag's `{{` and its kind:
/// whitespace, the whitespace-control `~`, the block `#` and further braces.
pub open spec fn tag_filler(c: char) -> bool {
    c == ' ' || c == '\t' || c == '\n' || c == '\r' || c == '~' || c == '#' || c == '{'
}

/// The first position at or after `j` that holds no tag filler, or the length.
pub open spec fn first_significant(s: Seq<char>, j: int) -> int
    decreases s.len() - j,
{
    if j < 0 || j >= s.len() {
        s.len() as int
    } else if tag_filler(s[j]) {
        first_significant(s, j + 1)
    } else {
        j
    }
}

/// Whether a tag opening at `i` is a partial (`>`) or a decorator such as an
/// inline-partial definition (`*`).
pub open spec fn opens_partial_at(s: Seq<char>, i: int) -> bool {
    &&& 0 <= i
    &&& i + 1 < s.len()
    &&& s[i] == '{'
    &&& s[i + 1] == '{'
    &&& first_significant(s, i + 2) < s.len()
    &&& (s[first_significant(s, i + 2)] == '>' || s[first_significant(s, i + 2)] == '*')
}

/// Whether a template uses only substitutions and blocks: no partial and no
/// decorator tag.
pub open spec fn partial_free(s: Seq<char>) -> bool {
    forall|i: int| 0 <= i < s.len() ==> !#[trigger] opens_partial_at(s, i)
}

/// Whether `c` may stand between a tag's `{{` and its kind.
fn is_tag_filler(c: char) -> (r: bool)
    ensures
        r == tag_filler(c),
{
    c == ' ' || c == '\t' || c == '\n' || c == '\r' || c == '~' || c == '#' || c == '{'
}

/// Whether a template is free of partial and decorator tags.
pub fn is_partial_free(content: &String) -> (r: bool)
    ensures
        r == partial_free(content@),
{
    let t = content.as_str();
    let n = t.unicode_len();
    let mut i: usize = 0;
    while i < n
        invariant
            n == content@.len(),
            t@ == content@,
            i <= n,
            forall|j: int| 0 <= j < i ==> !#[trigger] opens_partial_at(content@, j),
        decreases n - i,
    {
        if i + 1 < n && t.get_char(i) == '{' && t.get_char(i + 1) == '{' {
            let mut k: usize = i + 2;
            while k < n && is_tag_filler(t.get_char(k))
                invariant
                    n == content@.len(),
                    t@ == content@,
                    i + 2 <= k <= n,
                    first_significant(content@, (i + 2) as int) == first_significant(content@, k as int),
                decreases n - k,
            {
                k += 1;
            }
            if k < n {
                let c = t.get_char(k);
                if c == '>' || c == '*' {
                    assert(opens_partial_at(content@, i as int));
                    return false;
                }
            }
        }
        i += 1;
    }
    true
}

/// A name for what Handlebars makes of a template and its key/value pairs:
/// the rendered text, or nothing where the template does not parse.
pub uninterp spec fn template_render(content: Seq<char>, kv: Seq<(Seq<char>, Option<Seq<char>>)>) -> Option<Seq<char>>;

/// Relies on `handlebars::Handlebars::render_template`: renders `content` with
/// the pairs as a JSON object (a missing fill is `null`); the result depends
/// on the template and the pairs alone. Templates with partials are left out:
/// a partial that includes itself makes the renderer recurse without end.
#[verifier::external_body]
fn render_template(content: &String, kv: &Vec<(String, Option<String>)>) -> (r: Option<String>)
    requires
        partial_free(content@),
    ensures
        match r {
            Some(s) => template_render(content@, crate::format::kv_view(kv@)) == Some(s@),
            None => template_render(content@, crate::format::kv_view(kv@)) is None,
        },
{
    let data: std::collections::BTreeMap<&String, &Option<String>> = kv.iter().map(|p| (&p.0, &p.1)).collect();
    handlebars::Handlebars::new().render_template(content, &data).ok()
}

/// The facility that a software spec runs on.
pub open spec fn facility_matches(f: FacilityKind, s: SoftwareSpec) -> bool {
    match (f, s) {
        (FacilityKind::Spack { name: n1, argument_list: a1 }, SoftwareSpec::Spack { name: n2, argument_list: a2 }) => n1@ == n2@ && a1@ == a2@,
        (FacilityKind::Singularity { image: i1, tag: t1 }, SoftwareSpec::Singularity { image: i2, tag: t2 }) => i1@ == i2@ && t1@ == t2@,
        _ => false,
    }
}

/// `s` without the character `c`.
pub open spec fn without_char(s: Seq<char>, c: char) -> Seq<char> {
    s.filter(|x: char| x != c)
}

/// The facility for a software spec.
pub fn facility_of(s: &SoftwareSpec) -> (r: FacilityKind)
    ensures
        facility_matches(r, *s),
{
    match s {
        SoftwareSpec::Spack { name, argument_list } => {
            let a = argument_list.clone();
            assert(a@ =~= argument_list@);
            FacilityKind::Spack { name: name.clone(), argument_list: a }
        },
        SoftwareSpec::Singularity { image, tag } => FacilityKind::Singularity { image: image.clone(), tag: tag.clone() },
    }
}

/// `s` with every `c` removed.
pub fn remove_char(s: &String, c: char) -> (r: String)
    ensures
        r@ == without_char(s@, c),
{
    let t = s.as_str();
    let n = t.unicode_len();
    let mut r = String::new();
    let mut i: usize = 0;
    while i < n
        invariant
            n == s@.len(),
            t@ == s@,
            i <= n,
            r@ == without_char(s@.subrange(0, i as int), c),
        decreases n - i,
    {
        proof {
            reveal(Seq::filter);
            assert(s@.subrange(0, i + 1).drop_last() == s@.subrange(0, i as int));
        }
        if t.get_char(i) != c {
            let one = t.substring_char(i, i + 1);
            assert(one@ =~= seq![s@[i as int]]);
            r.append(one);
        }
        i += 1;
    }
    assert(s@.subrange(0, n as int) =~= s@);
    r
}

/// What the installed-software and block-list collaborators are asked about a
/// software spec: its name, its version (the first install argument without
/// `@`) and its install arguments; all empty for a container image.
pub fn deployment_query(s: &SoftwareSpec) -> (r: (String, String, Vec<String>))
    ensures
        match *s {
            SoftwareSpec::Spack { name, argument_list } => r.0@ == name@ && r.2@ == argument_list@ && r.1@ == (
                if argument_list@.len() > 0 {
                    without_char(argument_list@[0]@, '@')
                } else {
                    Seq::empty()
                }),
            SoftwareSpec::Singularity { .. } => r.0@.len() == 0 && r.1@.len() == 0 && r.2@.len() == 0,
        },
{
    match s {
        SoftwareSpec::Spack { name, argument_list } => {
            let version = if argument_list.len() > 0 {
                remove_char(&argument_list[0], '@')
            } else {
                String::new()
            };
            let a = argument_list.clone();
            assert(a@ =~= argument_list@);
            (name.clone(), version, a)
        },
        SoftwareSpec::Singularity { .. } => (String::new(), String::new(), Vec::new()),
    }
}

/// Stateless compiler of software use-case nodes into tasks.
pub struct SoftwareComputingUsecaseService {}

impl SoftwareComputingUsecaseService {
    /// The kind of node this service handles.
    pub fn get_service_type(&self) -> (r: crate::model::NodeInstanceKind)
        ensures
            r == crate::model::NodeInstanceKind::SoftwareUsecaseComputing,
    {
        crate::model::NodeInstanceKind::SoftwareUsecaseComputing
    }

    /// The format of argument material `descriptor`, with no fills.
    pub fn argument_format(argument_materials: &Vec<Argument>, descriptor: &String) -> (r: Result<FormatFill, KernelError>)
        ensures
            ({
                let i = first_index(argument_materials@, argument_named(descriptor@));
                if 0 <= i < argument_materials@.len() {
                    r matches Ok(f) && f@.0 == argument_materials@[i].value_format@ && f@.1.len() == 0
                } else {
                    r == Err::<FormatFill, KernelError>(KernelError::NoSuchMaterial { descriptor: *descriptor })
                }
            }),
    {
        proof {
            crate::seqs::lemma_first_index_range(argument_materials@, argument_named(descriptor@));
        }
        let mut i: usize = 0;
        while i < argument_materials.len()
            invariant
                i <= argument_materials@.len(),
                forall|j: int| 0 <= j < i ==> !argument_named(descriptor@)(#[trigger] argument_materials@[j]),
            decreases argument_materials@.len() - i,
        {
            if argument_materials[i].descriptor == *descriptor {
                proof {
                    crate::seqs::lemma_first_index_found(argument_materials@, argument_named(descriptor@), i as int);
                }
                return Ok(FormatFill::new(argument_materials[i].value_format.clone()));
            }
            i += 1;
        }
        proof {
            crate::seqs::lemma_first_index_none(argument_materials@, argument_named(descriptor@));
        }
        Err(KernelError::NoSuchMaterial { descriptor: descriptor.clone() })
    }

    /// The key and format of environment material `descriptor`, with no fills.
    pub fn environment_kv_format(environment_materials: &Vec<Environment>, descriptor: &String) -> (r: Result<(String, FormatFill), KernelError>)
        ensures
            ({
                let i = first_index(environment_materials@, environment_named(descriptor@));
                if 0 <= i < environment_materials@.len() {
                    r matches Ok((k, f)) && k@ == environment_materials@[i].key@
                        && f@.0 == environment_materials@[i].value_format@ && f@.1.len() == 0
                } else {
                    r == Err::<(String, FormatFill), KernelError>(KernelError::NoSuchMaterial { descriptor: *descriptor })
                }
            }),
    {
        proof {
            crate::seqs::lemma_first_index_range(environment_materials@, environment_named(descriptor@));
        }
        let mut i: usize = 0;
        while i < environment_materials.len()
            invariant
                i <= environment_materials@.len(),
                forall|j: int| 0 <= j < i ==> !environment_named(descriptor@)(#[trigger] environment_materials@[j]),
            decreases environment_materials@.len() - i,
        {
            if environment_materials[i].descriptor == *descriptor {
                proof {
                    crate::seqs::lemma_first_index_found(environment_materials@, environment_named(descriptor@), i as int);
                }
                return Ok((
                    environment_materials[i].key.clone(),
                    FormatFill::new(environment_materials[i].value_format.clone()),
                ));
            }
            i += 1;
        }
        proof {
            crate::seqs::lemma_first_index_none(environment_materials@, environment_named(descriptor@));
        }
        Err(KernelError::NoSuchMaterial { descriptor: descriptor.clone() })
    }
}

/// Assembly keeps the argument table in ascending sort order.
pub proof fn lemma_assoc_update_ascends<V>(s: Seq<(usize, V)>, k: usize, f: spec_fn(Option<V>) -> V)
    requires
        keys_ascend(s),
    ensures
        keys_ascend(assoc_update(s, k, f)),
{
    crate::seqs::lemma_first_index_range(s, key_at_least::<V>(k));
    let p = first_index(s, key_at_least::<V>(k));
    let t = assoc_update(s, k, f);
    if p >= 0 && p < s.len() && s[p].0 == k {
        assert forall|i: int, j: int| 0 <= i < j < t.len() implies t[i].0 < t[j].0 by {
            assert(t[i].0 == s[i].0 && t[j].0 == s[j].0);
        }
    } else if p >= 0 && p < s.len() {
        assert forall|i: int, j: int| 0 <= i < j < t.len() implies t[i].0 < t[j].0 by {
            if j < p {
            } else if j == p {
                assert(!key_at_least::<V>(k)(s[i]));
            } else if i < p {
                assert(!key_at_least::<V>(k)(s[i]));
                assert(t[j] == s[j - 1]);
                if j - 1 > p {
                    assert(s[p].0 < s[j - 1].0);
                }
            } else if i == p {
                assert(t[j] == s[j - 1]);
                if j - 1 > p {
                    assert(s[p].0 < s[j - 1].0);
                }
            } else {
                assert(t[i] == s[i - 1] && t[j] == s[j - 1]);
            }
        }
    } else {
        assert forall|i: int, j: int| 0 <= i < j < t.len() implies t[i].0 < t[j].0 by {
            if j == s.len() {
                assert(!key_at_least::<V>(k)(s[i]));
            }
        }
    }
}

/// The argument table's formats rendered, in table order.
pub open spec fn rendered_arguments(t: Seq<(usize, (Seq<char>, Seq<(usize, Option<Seq<char>>)>))>) -> Seq<Seq<char>> {
    t.map_values(|e: (usize, (Seq<char>, Seq<(usize, Option<Seq<char>>)>))| render(e.1.0, e.1.1))
}

/// Renders every argument of the table, in table order.
pub fn render_arguments(table: &Vec<(usize, FormatFill)>) -> (r: Vec<String>)
    ensures
        r@.len() == table@.len(),
        forall|i: int| 0 <= i < r@.len() ==> (#[trigger] r@[i])@ == rendered_arguments(arg_table_view(table@))[i],
{
    let mut r: Vec<String> = Vec::new();
    let mut i: usize = 0;
    while i < table.len()
        invariant
            i <= table@.len(),
            r@.len() == i,
            forall|j: int| 0 <= j < i ==> (#[trigger] r@[j])@ == rendered_arguments(arg_table_view(table@))[j],
        decreases table@.len() - i,
    {
        let a = render_format(&table[i].1);
        proof {
            let t = arg_table_view(table@);
            assert(t[i as int] == (table@[i as int].0, table@[i as int].1@));
            assert(rendered_arguments(t)[i as int] == a@);
        }
        r.push(a);
        i += 1;
    }
    r
}

/// Renders every environment variable of the table, in table order.
pub fn render_environments(table: &Vec<(String, FormatFill)>) -> (r: Vec<(String, String)>)
    ensures
        r@.len() == table@.len(),
        forall|i: int| 0 <= i < r@.len() ==> (#[trigger] r@[i]).0@ == table@[i].0@ && r@[i].1@ == render(table@[i].1@.0, table@[i].1@.1),
{
    let mut r: Vec<(String, String)> = Vec::new();
    let mut i: usize = 0;
    while i < table.len()
        invariant
            i <= table@.len(),
            r@.len() == i,
            forall|j: int| 0 <= j < i ==> (#[trigger] r@[j]).0@ == table@[j].0@ && r@[j].1@ == render(table@[j].1@.0, table@[j].1@.1),
        decreases table@.len() - i,
    {
        r.push((table[i].0.clone(), render_format(&table[i].1)));
        i += 1;
    }
    r
}

/// The path of a file family.
pub open spec fn kind_path(k: FileKind) -> Seq<char> {
    match k {
        FileKind::Normal(p) => p@,
        FileKind::Batched(p) => p@,
    }
}

/// Whether every output file of `files` has a non-empty path.
pub open spec fn outputs_have_paths(files: Seq<FileInfo>) -> bool {
    forall|j: int| 0 <= j < files.len() ==> (#[trigger] files[j] matches FileInfo::Output { path, .. } ==> path@.len() > 0)
}

/// Whether `files` holds no output file.
pub open spec fn no_outputs(files: Seq<FileInfo>) -> bool {
    forall|j: int| 0 <= j < files.len() ==> !((#[trigger] files[j]) is Output)
}

/// Whether no two output files of `files` share an id.
pub open spec fn output_ids_unique(files: Seq<FileInfo>) -> bool {
    forall|p: int, q: int|
        0 <= p < files.len() && 0 <= q < files.len() && p != q && (#[trigger] files[p]) is Output && (#[trigger] files[q]) is Output
            ==> files[p]->Output_id != files[q]->Output_id
}

/// The descriptor of a use-case output slot.
pub open spec fn output_descriptor(s: OutputSlot) -> Seq<char> {
    match s {
        OutputSlot::Text { descriptor, .. } => descriptor@,
        OutputSlot::File { descriptor, .. } => descriptor@,
    }
}

/// Whether the use case's output slots have distinct descriptors.
pub open spec fn output_descriptors_distinct(m: ComputingUsecase) -> bool {
    forall|i: int, j: int|
        0 <= i < j < m.usecase_spec.output_slots@.len() ==> output_descriptor(#[trigger] m.usecase_spec.output_slots@[i])
            != output_descriptor(#[trigger] m.usecase_spec.output_slots@[j])
}

/// Whether the node's output slots start with distinct pre-allocated ids.
pub open spec fn first_ids_distinct(node: NodeSpec) -> bool {
    forall|a: int, b: int|
        0 <= a < node.output_slots@.len() && 0 <= b < node.output_slots@.len() && a != b
            && prepared_ids((#[trigger] node.output_slots@[a]).kind).len() > 0
            && prepared_ids((#[trigger] node.output_slots@[b]).kind).len() > 0
            ==> prepared_ids(node.output_slots@[a].kind)[0] != prepared_ids(node.output_slots@[b].kind)[0]
}

/// Whether the node has an output slot `d` with a pre-allocated id.
pub open spec fn first_output_valid(node: NodeSpec, d: Seq<char>) -> bool {
    let n = first_index(node.output_slots@, out_named(d));
    0 <= n < node.output_slots@.len() && prepared_ids(node.output_slots@[n].kind).len() > 0
}

/// The id of the file that a collector step writes, if it writes one.
pub open spec fn target_id(b: TaskBody) -> Option<u128> {
    match b {
        TaskBody::CollectedOut { to: TaskCollectTo::File { id, .. }, .. } => Some(id),
        _ => None,
    }
}

/// Whether no two files of a compiled task share an id: the output files of
/// `files` and the files that the collector steps of `body` from position
/// `from` on write.
pub open spec fn file_ids_unique(files: Seq<FileInfo>, body: Seq<TaskBody>, from: int) -> bool {
    &&& output_ids_unique(files)
    &&& forall|p: int, q: int|
        0 <= p < files.len() && from <= q < body.len() && (#[trigger] files[p]) is Output && (#[trigger] target_id(body[q])) is Some
            ==> files[p]->Output_id != target_id(body[q])->Some_0
    &&& forall|q1: int, q2: int|
        from <= q1 < body.len() && from <= q2 < body.len() && q1 != q2 && (#[trigger] target_id(body[q1])) is Some
            && (#[trigger] target_id(body[q2])) is Some ==> target_id(body[q1]) != target_id(body[q2])
}

/// Different use-case output slots name node slots with different first ids.
proof fn lemma_slots_give_distinct_ids(node: NodeSpec, m: ComputingUsecase, s1: int, s2: int)
    requires
        output_descriptors_distinct(m),
        first_ids_distinct(node),
        0 <= s1 < m.usecase_spec.output_slots@.len(),
        0 <= s2 < m.usecase_spec.output_slots@.len(),
        s1 != s2,
        first_output_valid(node, output_descriptor(m.usecase_spec.output_slots@[s1])),
        first_output_valid(node, output_descriptor(m.usecase_spec.output_slots@[s2])),
    ensures
        first_output_of(node, output_descriptor(m.usecase_spec.output_slots@[s1])) != first_output_of(
            node,
            output_descriptor(m.usecase_spec.output_slots@[s2]),
        ),
{
    let d1 = output_descriptor(m.usecase_spec.output_slots@[s1]);
    let d2 = output_descriptor(m.usecase_spec.output_slots@[s2]);
    if s1 < s2 {
        assert(d1 != d2);
    } else {
        assert(d2 != d1);
    }
    crate::seqs::lemma_first_index_range(node.output_slots@, out_named(d1));
    crate::seqs::lemma_first_index_range(node.output_slots@, out_named(d2));
    let n1 = first_index(node.output_slots@, out_named(d1));
    let n2 = first_index(node.output_slots@, out_named(d2));
    assert(node.output_slots@[n1].descriptor@ == d1);
    assert(node.output_slots@[n2].descriptor@ == d2);
    assert(n1 != n2);
}

/// The first pre-allocated id of the node's output slot `d`.
pub open spec fn first_output_of(node: NodeSpec, d: Seq<char>) -> u128 {
    prepared_ids(node.output_slots@[first_index(node.output_slots@, out_named(d))].kind)[0]
}

/// The std-in binding as a tag (0: none, 1: text, 2: file) and its text.
pub open spec fn stdin_view(s: StdInKind) -> (int, Seq<char>) {
    match s {
        StdInKind::Text { text } => (1, text@),
        StdInKind::File { path } => (2, path@),
        StdInKind::Absent => (0, Seq::empty()),
    }
}

/// The argument table, as text.
pub type ArgsView = Seq<(usize, (Seq<char>, Seq<(usize, Option<Seq<char>>)>))>;

/// The environment table, as text.
pub type EnvsView = Seq<(Seq<char>, (Seq<char>, Seq<(usize, Option<Seq<char>>)>))>;

/// The template table, as text.
pub type TemplatesView = Seq<(String, Seq<(Seq<char>, Option<Seq<char>>)>)>;

/// The compiler's working state, as text: arguments, environment, std-in and
/// template fills.
pub type AssemblyView = (ArgsView, EnvsView, (int, Seq<char>), TemplatesView);

/// The empty working state.
pub open spec fn empty_assembly() -> AssemblyView {
    (Seq::empty(), Seq::empty(), (0, Seq::empty()), Seq::empty())
}

/// Anchors argument material `d` at sort `sort` and applies `fill`.
pub open spec fn arg_step(
    st: AssemblyView,
    m: ComputingUsecase,
    d: String,
    sort: usize,
    fill: Option<(usize, Option<Seq<char>>)>,
) -> Result<AssemblyView, KernelError> {
    let i = first_index(m.arguments@, argument_named(d@));
    if 0 <= i < m.arguments@.len() {
        Ok((assoc_update(st.0, sort, fill_with(m.arguments@[i].value_format@, fill)), st.1, st.2, st.3))
    } else {
        Err(KernelError::NoSuchMaterial { descriptor: d })
    }
}

/// Anchors environment material `d` and applies `fill`.
pub open spec fn env_step(
    st: AssemblyView,
    m: ComputingUsecase,
    d: String,
    fill: Option<(usize, Option<Seq<char>>)>,
) -> Result<AssemblyView, KernelError> {
    let i = first_index(m.environments@, environment_named(d@));
    if 0 <= i < m.environments@.len() {
        Ok((st.0, str_update(st.1, m.environments@[i].key@, fill_with(m.environments@[i].value_format@, fill)), st.2, st.3))
    } else {
        Err(KernelError::NoSuchMaterial { descriptor: d })
    }
}

/// Template `desc` with its first `k` keys set to `lit`.
pub open spec fn keys_fold(t: TemplatesView, desc: String, keys: Seq<String>, lit: Option<Seq<char>>, k: int) -> TemplatesView
    decreases k,
{
    if k <= 0 {
        t
    } else {
        name_update(keys_fold(t, desc, keys, lit, k - 1), desc, set_template_key(keys[k - 1]@, lit))
    }
}

/// Routes a text slot's literal along one reference.
pub open spec fn text_ref_step(st: AssemblyView, m: ComputingUsecase, r: TextRef, lit: Option<Seq<char>>) -> Result<AssemblyView, KernelError> {
    match r {
        TextRef::ArgRef { descriptor, sort, placeholder_nth } => arg_step(st, m, descriptor, sort, Some((placeholder_nth, lit))),
        TextRef::EnvRef { descriptor, placeholder_nth } => env_step(st, m, descriptor, Some((placeholder_nth, lit))),
        TextRef::StdIn => Ok((st.0, st.1, match lit {
            Some(x) => (1int, x),
            None => (0int, Seq::empty()),
        }, st.3)),
        TextRef::TemplateRef { descriptor, ref_keys } => Ok((st.0, st.1, st.2, keys_fold(st.3, descriptor, ref_keys@, lit, ref_keys@.len() as int))),
    }
}

/// Routes a file slot's literal along one reference.
pub open spec fn file_ref_step(st: AssemblyView, m: ComputingUsecase, r: FileRef, lit: Option<Seq<char>>) -> Result<AssemblyView, KernelError> {
    match r {
        FileRef::ArgRef { descriptor, sort, placeholder_nth } => arg_step(st, m, descriptor, sort, Some((placeholder_nth, lit))),
        FileRef::EnvRef { descriptor, placeholder_nth } => env_step(st, m, descriptor, Some((placeholder_nth, lit))),
        FileRef::StdIn => Ok((st.0, st.1, match lit {
            Some(x) => (2int, x),
            None => (0int, Seq::empty()),
        }, st.3)),
        FileRef::FileInputRef(_) => Ok(st),
        FileRef::TemplateRef { descriptor, ref_keys } => Ok((st.0, st.1, st.2, keys_fold(st.3, descriptor, ref_keys@, lit, ref_keys@.len() as int))),
    }
}

/// Routes a literal along the first `k` text references.
pub open spec fn text_refs_fold(st: AssemblyView, m: ComputingUsecase, refs: Seq<TextRef>, lit: Option<Seq<char>>, k: int) -> Result<AssemblyView, KernelError>
    decreases k,
{
    if k <= 0 {
        Ok(st)
    } else {
        match text_refs_fold(st, m, refs, lit, k - 1) {
            Err(e) => Err(e),
            Ok(s2) => text_ref_step(s2, m, refs[k - 1], lit),
        }
    }
}

/// Routes a literal along the first `k` file references.
pub open spec fn file_refs_fold(st: AssemblyView, m: ComputingUsecase, refs: Seq<FileRef>, lit: Option<Seq<char>>, k: int) -> Result<AssemblyView, KernelError>
    decreases k,
{
    if k <= 0 {
        Ok(st)
    } else {
        match file_refs_fold(st, m, refs, lit, k - 1) {
            Err(e) => Err(e),
            Ok(s2) => file_ref_step(s2, m, refs[k - 1], lit),
        }
    }
}

/// The descriptor of a use-case input slot.
pub open spec fn slot_descriptor(s: InputSlot) -> Seq<char> {
    match s {
        InputSlot::Text { descriptor, .. } => descriptor@,
        InputSlot::File { descriptor, .. } => descriptor@,
    }
}

/// Resolves one use-case input slot and routes its literal.
pub open spec fn slot_step(st: AssemblyView, node: NodeSpec, m: ComputingUsecase, texts: Seq<(u128, String)>, s: InputSlot) -> Result<AssemblyView, KernelError> {
    match content_literal(node, slot_descriptor(s), texts) {
        Err(e) => Err(e),
        Ok(lit) => match s {
            InputSlot::Text { ref_materials, .. } => text_refs_fold(st, m, ref_materials@, lit, ref_materials@.len() as int),
            InputSlot::File { ref_materials, .. } => file_refs_fold(st, m, ref_materials@, lit, ref_materials@.len() as int),
        },
    }
}

/// Resolves the first `k` use-case input slots.
pub open spec fn slots_fold(st: AssemblyView, node: NodeSpec, m: ComputingUsecase, texts: Seq<(u128, String)>, k: int) -> Result<AssemblyView, KernelError>
    decreases k,
{
    if k <= 0 {
        Ok(st)
    } else {
        match slots_fold(st, node, m, texts, k - 1) {
            Err(e) => Err(e),
            Ok(s2) => slot_step(s2, node, m, texts, m.usecase_spec.input_slots@[k - 1]),
        }
    }
}

/// Anchors the first `k` flag arguments.
pub open spec fn flag_args_fold(st: AssemblyView, m: ComputingUsecase, k: int) -> Result<AssemblyView, KernelError>
    decreases k,
{
    if k <= 0 {
        Ok(st)
    } else {
        match flag_args_fold(st, m, k - 1) {
            Err(e) => Err(e),
            Ok(s2) => arg_step(s2, m, m.usecase_spec.flag_arguments@[k - 1].0, m.usecase_spec.flag_arguments@[k - 1].1, None),
        }
    }
}

/// Anchors the first `k` flag environment variables.
pub open spec fn flag_envs_fold(st: AssemblyView, m: ComputingUsecase, k: int) -> Result<AssemblyView, KernelError>
    decreases k,
{
    if k <= 0 {
        Ok(st)
    } else {
        match flag_envs_fold(st, m, k - 1) {
            Err(e) => Err(e),
            Ok(s2) => env_step(s2, m, m.usecase_spec.flag_environments@[k - 1], None),
        }
    }
}

/// Routes a rendered template along one `as_content` reference.
pub open spec fn rendered_step(st: AssemblyView, m: ComputingUsecase, r: TextRef, rendered: Seq<char>) -> Result<AssemblyView, KernelError> {
    match r {
        TextRef::ArgRef { descriptor, sort, placeholder_nth } => arg_step(st, m, descriptor, sort, Some((placeholder_nth, Some(rendered)))),
        TextRef::EnvRef { descriptor, placeholder_nth } => env_step(st, m, descriptor, Some((placeholder_nth, Some(rendered)))),
        TextRef::StdIn => Ok((st.0, st.1, (1int, rendered), st.3)),
        TextRef::TemplateRef { .. } => Err(KernelError::UnsupportedRefChain),
    }
}

/// Input materials with this descriptor.
pub open spec fn input_material_named(d: Seq<char>) -> spec_fn(crate::package::FilesomeInput) -> bool {
    |f: crate::package::FilesomeInput| f.descriptor@ == d
}

/// Routes a template's file name along one `as_file_name` reference.
pub open spec fn file_name_step(st: AssemblyView, m: ComputingUsecase, r: FileRef, file_name: Seq<char>) -> Result<AssemblyView, KernelError> {
    match r {
        FileRef::ArgRef { descriptor, sort, placeholder_nth } => arg_step(st, m, descriptor, sort, Some((placeholder_nth, Some(file_name)))),
        FileRef::EnvRef { descriptor, placeholder_nth } => env_step(st, m, descriptor, Some((placeholder_nth, Some(file_name)))),
        FileRef::StdIn => Ok((st.0, st.1, (2int, file_name), st.3)),
        FileRef::FileInputRef(d) => {
            let i = first_index(m.filesome_inputs@, input_material_named(d@));
            if 0 <= i < m.filesome_inputs@.len() {
                Ok(st)
            } else {
                Err(KernelError::NoSuchMaterial { descriptor: d })
            }
        },
        FileRef::TemplateRef { .. } => Err(KernelError::UnsupportedRefChain),
    }
}

/// Routes a rendered template along its first `k` `as_content` references.
pub open spec fn rendered_fold(st: AssemblyView, m: ComputingUsecase, refs: Seq<TextRef>, rendered: Seq<char>, k: int) -> Result<AssemblyView, KernelError>
    decreases k,
{
    if k <= 0 {
        Ok(st)
    } else {
        match rendered_fold(st, m, refs, rendered, k - 1) {
            Err(e) => Err(e),
            Ok(s2) => rendered_step(s2, m, refs[k - 1], rendered),
        }
    }
}

/// Routes a template's file name along its first `k` `as_file_name` references.
pub open spec fn file_name_fold(st: AssemblyView, m: ComputingUsecase, refs: Seq<FileRef>, file_name: Seq<char>, k: int) -> Result<AssemblyView, KernelError>
    decreases k,
{
    if k <= 0 {
        Ok(st)
    } else {
        match file_name_fold(st, m, refs, file_name, k - 1) {
            Err(e) => Err(e),
            Ok(s2) => file_name_step(s2, m, refs[k - 1], file_name),
        }
    }
}

/// Use-case templates with this descriptor.
pub open spec fn template_named(d: Seq<char>) -> spec_fn(crate::package::TemplateFile) -> bool {
    |t: crate::package::TemplateFile| t.descriptor@ == d
}

/// Template files with this descriptor.
pub open spec fn template_info_named(d: Seq<char>) -> spec_fn(crate::package::TemplateFileInfo) -> bool {
    |t: crate::package::TemplateFileInfo| t.descriptor@ == d
}

/// Renders one referenced template and routes the result.
pub open spec fn template_step(st: AssemblyView, m: ComputingUsecase, entry: (String, Seq<(Seq<char>, Option<Seq<char>>)>)) -> Result<AssemblyView, KernelError> {
    let t = first_index(m.usecase_spec.template_files@, template_named(entry.0@));
    let u = first_index(m.template_file_infos@, template_info_named(entry.0@));
    if !(0 <= t < m.usecase_spec.template_files@.len()) || !(0 <= u < m.template_file_infos@.len()) {
        Err(KernelError::NoSuchMaterial { descriptor: entry.0 })
    } else {
        let tf = m.usecase_spec.template_files@[t];
        let info = m.template_file_infos@[u];
        if !partial_free(info.content@) {
            Err(KernelError::UnsupportedRefChain)
        } else {
        match template_render(info.content@, entry.1) {
            None => Err(KernelError::TemplateFailed),
            Some(rendered) => match rendered_fold(st, m, tf.as_content@, rendered, tf.as_content@.len() as int) {
                Err(e) => Err(e),
                Ok(s2) => file_name_fold(s2, m, tf.as_file_name@, info.file_name@, tf.as_file_name@.len() as int),
            },
        }
        }
    }
}

/// Renders the first `k` referenced templates.
pub open spec fn templates_fold(st: AssemblyView, m: ComputingUsecase, t: TemplatesView, k: int) -> Result<AssemblyView, KernelError>
    decreases k,
{
    if k <= 0 {
        Ok(st)
    } else {
        match templates_fold(st, m, t, k - 1) {
            Err(e) => Err(e),
            Ok(s2) => template_step(s2, m, t[k - 1]),
        }
    }
}

/// The working state after the three passes: flag materials, input slots,
/// then the templates that the slots fill.
pub open spec fn assemble(node: NodeSpec, m: ComputingUsecase, texts: Seq<(u128, String)>) -> Result<AssemblyView, KernelError> {
    match flag_args_fold(empty_assembly(), m, m.usecase_spec.flag_arguments@.len() as int) {
        Err(e) => Err(e),
        Ok(a) => match flag_envs_fold(a, m, m.usecase_spec.flag_environments@.len() as int) {
            Err(e) => Err(e),
            Ok(b) => match slots_fold(b, node, m, texts, m.usecase_spec.input_slots@.len() as int) {
                Err(e) => Err(e),
                Ok(c) => templates_fold((c.0, c.1, c.2, Seq::empty()), m, c.3, c.3.len() as int),
            },
        },
    }
}

proof fn lemma_text_refs_fold_sticks(st: AssemblyView, m: ComputingUsecase, refs: Seq<TextRef>, lit: Option<Seq<char>>, k: int, n: int)
    requires
        0 <= k <= n,
        text_refs_fold(st, m, refs, lit, k) is Err,
    ensures
        text_refs_fold(st, m, refs, lit, n) == text_refs_fold(st, m, refs, lit, k),
    decreases n - k,
{
    if k < n {
        lemma_text_refs_fold_sticks(st, m, refs, lit, k, n - 1);
    }
}

proof fn lemma_file_refs_fold_sticks(st: AssemblyView, m: ComputingUsecase, refs: Seq<FileRef>, lit: Option<Seq<char>>, k: int, n: int)
    requires
        0 <= k <= n,
        file_refs_fold(st, m, refs, lit, k) is Err,
    ensures
        file_refs_fold(st, m, refs, lit, n) == file_refs_fold(st, m, refs, lit, k),
    decreases n - k,
{
    if k < n {
        lemma_file_refs_fold_sticks(st, m, refs, lit, k, n - 1);
    }
}

proof fn lemma_slots_fold_sticks(st: AssemblyView, node: NodeSpec, m: ComputingUsecase, texts: Seq<(u128, String)>, k: int, n: int)
    requires
        0 <= k <= n,
        slots_fold(st, node, m, texts, k) is Err,
    ensures
        slots_fold(st, node, m, texts, n) == slots_fold(st, node, m, texts, k),
    decreases n - k,
{
    if k < n {
        lemma_slots_fold_sticks(st, node, m, texts, k, n - 1);
    }
}

proof fn lemma_flag_args_fold_sticks(st: AssemblyView, m: ComputingUsecase, k: int, n: int)
    requires
        0 <= k <= n,
        flag_args_fold(st, m, k) is Err,
    ensures
        flag_args_fold(st, m, n) == flag_args_fold(st, m, k),
    decreases n - k,
{
    if k < n {
        lemma_flag_args_fold_sticks(st, m, k, n - 1);
    }
}

proof fn lemma_flag_envs_fold_sticks(st: AssemblyView, m: ComputingUsecase, k: int, n: int)
    requires
        0 <= k <= n,
        flag_envs_fold(st, m, k) is Err,
    ensures
        flag_envs_fold(st, m, n) == flag_envs_fold(st, m, k),
    decreases n - k,
{
    if k < n {
        lemma_flag_envs_fold_sticks(st, m, k, n - 1);
    }
}

proof fn lemma_rendered_fold_sticks(st: AssemblyView, m: ComputingUsecase, refs: Seq<TextRef>, rendered: Seq<char>, k: int, n: int)
    requires
        0 <= k <= n,
        rendered_fold(st, m, refs, rendered, k) is Err,
    ensures
        rendered_fold(st, m, refs, rendered, n) == rendered_fold(st, m, refs, rendered, k),
    decreases n - k,
{
    if k < n {
        lemma_rendered_fold_sticks(st, m, refs, rendered, k, n - 1);
    }
}

proof fn lemma_file_name_fold_sticks(st: AssemblyView, m: ComputingUsecase, refs: Seq<FileRef>, file_name: Seq<char>, k: int, n: int)
    requires
        0 <= k <= n,
        file_name_fold(st, m, refs, file_name, k) is Err,
    ensures
        file_name_fold(st, m, refs, file_name, n) == file_name_fold(st, m, refs, file_name, k),
    decreases n - k,
{
    if k < n {
        lemma_file_name_fold_sticks(st, m, refs, file_name, k, n - 1);
    }
}

proof fn lemma_templates_fold_sticks(st: AssemblyView, m: ComputingUsecase, t: TemplatesView, k: int, n: int)
    requires
        0 <= k <= n,
        templates_fold(st, m, t, k) is Err,
    ensures
        templates_fold(st, m, t, n) == templates_fold(st, m, t, k),
    decreases n - k,
{
    if k < n {
        lemma_templates_fold_sticks(st, m, t, k, n - 1);
    }
}

/// The environment table's formats rendered, in table order.
pub open spec fn rendered_environments(t: EnvsView) -> Seq<(Seq<char>, Seq<char>)> {
    t.map_values(|e: (Seq<char>, (Seq<char>, Seq<(usize, Option<Seq<char>>)>))| (e.0, render(e.1.0, e.1.1)))
}

/// The input file that an `as_file_name` reference adds: the rendered
/// template placed at a declared input material's path.
pub open spec fn name_ref_files(m: ComputingUsecase, r: FileRef, rendered: Seq<char>) -> Seq<FileView> {
    match r {
        FileRef::FileInputRef(d) => {
            let i = first_index(m.filesome_inputs@, input_material_named(d@));
            if 0 <= i < m.filesome_inputs@.len() {
                seq![(0int, kind_path(m.filesome_inputs@[i].file_kind), m.filesome_inputs@[i].file_kind is Batched, false, 0u128, 1int, rendered)]
            } else {
                Seq::empty()
            }
        },
        _ => Seq::empty(),
    }
}

/// The input files that the first `k` `as_file_name` references add.
pub open spec fn name_files_fold(m: ComputingUsecase, refs: Seq<FileRef>, rendered: Seq<char>, k: int) -> Seq<FileView>
    decreases k,
{
    if k <= 0 {
        Seq::empty()
    } else {
        name_files_fold(m, refs, rendered, k - 1) + name_ref_files(m, refs[k - 1], rendered)
    }
}

/// Whether a template's file names only an input material, which it fills
/// in place.
pub open spec fn inline_only(tf: crate::package::TemplateFile) -> bool {
    tf.as_file_name@.len() == 0 || (tf.as_file_name@.len() == 1 && tf.as_file_name@[0] is FileInputRef)
}

/// The input files that one referenced template adds: the rendered file
/// under the template's own name (unless it only fills an input material),
/// then one per material it fills.
pub open spec fn template_files_of(m: ComputingUsecase, entry: (String, Seq<(Seq<char>, Option<Seq<char>>)>)) -> Seq<FileView> {
    let t = first_index(m.usecase_spec.template_files@, template_named(entry.0@));
    let u = first_index(m.template_file_infos@, template_info_named(entry.0@));
    if !(0 <= t < m.usecase_spec.template_files@.len()) || !(0 <= u < m.template_file_infos@.len()) {
        Seq::empty()
    } else {
        let tf = m.usecase_spec.template_files@[t];
        let info = m.template_file_infos@[u];
        let rendered = template_render(info.content@, entry.1)->Some_0;
        (if inline_only(tf) {
            Seq::empty()
        } else {
            seq![(0int, info.file_name@, false, false, 0u128, 1int, rendered)]
        }) + name_files_fold(m, tf.as_file_name@, rendered, tf.as_file_name@.len() as int)
    }
}

/// The input files that the first `k` referenced templates add.
pub open spec fn templates_files_fold(m: ComputingUsecase, t: TemplatesView, k: int) -> Seq<FileView>
    decreases k,
{
    if k <= 0 {
        Seq::empty()
    } else {
        templates_files_fold(m, t, k - 1) + template_files_of(m, t[k - 1])
    }
}

/// The input files that the first `k` use-case input slots bring.
pub open spec fn slots_files_fold(node: NodeSpec, m: ComputingUsecase, k: int) -> Seq<FileView>
    decreases k,
{
    if k <= 0 {
        Seq::empty()
    } else {
        slots_files_fold(node, m, k - 1) + crate::content::content_files(node, slot_descriptor(m.usecase_spec.input_slots@[k - 1]))
    }
}

/// The path an input slot appoints: the stored text of its first id.
pub open spec fn override_text(node: NodeSpec, a: AppointedBy, texts: Seq<(u128, String)>) -> Option<Seq<char>> {
    match a {
        AppointedBy::Material => None,
        AppointedBy::InputSlot { text_input_descriptor } => {
            let i = first_index(node.input_slots@, crate::slots::in_named(text_input_descriptor@));
            match node.input_slots@[i].kind {
                NodeInputSlotKind::Text { contents: Some(ids), .. } => crate::content::text_of(texts, ids@[0]),
                _ => None,
            }
        },
    }
}

/// The output material that a use-case output file uses.
pub open spec fn out_material(m: ComputingUsecase, fo: FileOutAndAppointedBy) -> crate::package::FilesomeOutput {
    m.filesome_outputs@[first_index(m.filesome_outputs@, output_material_named(fo.file_out_material_descriptor@))]
}

/// The path of a use-case output file: the appointed one, else the
/// material's.
pub open spec fn usecase_out_path(node: NodeSpec, m: ComputingUsecase, texts: Seq<(u128, String)>, fo: FileOutAndAppointedBy) -> Seq<char> {
    match override_text(node, fo.kind, texts) {
        Some(p) => p,
        None => kind_path(out_material(m, fo).file_kind),
    }
}

/// The output file that one use-case output slot adds, if any.
pub open spec fn output_files(node: NodeSpec, m: ComputingUsecase, texts: Seq<(u128, String)>, s: OutputSlot) -> Seq<FileView> {
    match s {
        OutputSlot::File { descriptor, origin: FileOutOrigin::UsecaseOut(fo), optional } => seq![(
            1int,
            usecase_out_path(node, m, texts, fo),
            out_material(m, fo).file_kind is Batched,
            optional,
            first_output_of(node, descriptor@),
            0int,
            Seq::<char>::empty(),
        )],
        _ => Seq::empty(),
    }
}

/// The output files that the first `k` use-case output slots add.
pub open spec fn output_files_fold(node: NodeSpec, m: ComputingUsecase, texts: Seq<(u128, String)>, k: int) -> Seq<FileView>
    decreases k,
{
    if k <= 0 {
        Seq::empty()
    } else {
        output_files_fold(node, m, texts, k - 1) + output_files(node, m, texts, m.usecase_spec.output_slots@[k - 1])
    }
}

/// The path of use-case file output `fd`: empty where none is declared.
pub open spec fn fileout_path_text(node: NodeSpec, m: ComputingUsecase, texts: Seq<(u128, String)>, fd: Seq<char>) -> Seq<char> {
    let j = first_index(m.usecase_spec.output_slots@, file_out_slot_named(fd));
    if !(0 <= j < m.usecase_spec.output_slots@.len()) {
        Seq::empty()
    } else {
        match m.usecase_spec.output_slots@[j] {
            OutputSlot::File { origin: FileOutOrigin::UsecaseOut(fo), .. } => usecase_out_path(node, m, texts, fo),
            _ => Seq::empty(),
        }
    }
}

/// A collector's source, resolved, as plain values.
pub open spec fn from_spec(node: NodeSpec, m: ComputingUsecase, texts: Seq<(u128, String)>, from: CollectFrom) -> (int, Seq<char>) {
    match from {
        CollectFrom::FileOut(fd) => (0, fileout_path_text(node, m, texts, fd@)),
        CollectFrom::Stdout => (1, Seq::empty()),
        CollectFrom::Stderr => (2, Seq::empty()),
    }
}

/// A collect rule as plain values.
pub open spec fn rule_spec(r: CollectRule) -> (int, Seq<char>, usize) {
    match r {
        CollectRule::Regex(p) => (0, p@, 0),
        CollectRule::BottomLines(n) => (1, Seq::empty(), n),
        CollectRule::TopLines(n) => (2, Seq::empty(), n),
    }
}

/// The collector step for output slot `d` through collector `cd`.
pub open spec fn collector_view(node: NodeSpec, m: ComputingUsecase, texts: Seq<(u128, String)>, cd: Seq<char>, d: Seq<char>, optional: bool) -> CollectView {
    let co = m.collected_outs@[first_index(m.collected_outs@, collector_named(cd))];
    (
        from_spec(node, m, texts, co.from),
        rule_spec(co.collecting),
        match co.to {
            CollectTo::File { path } => (1, path@, first_output_of(node, d)),
            CollectTo::Text => (0, Seq::empty(), first_output_of(node, d)),
        },
        optional,
    )
}

/// The collector steps that one use-case output slot adds.
pub open spec fn output_collects(node: NodeSpec, m: ComputingUsecase, texts: Seq<(u128, String)>, s: OutputSlot) -> Seq<CollectView> {
    match s {
        OutputSlot::Text { descriptor, collected_out_descriptor, optional } => seq![collector_view(node, m, texts, collected_out_descriptor@, descriptor@, optional)],
        OutputSlot::File { descriptor, origin: FileOutOrigin::CollectedOut(cd), optional } => seq![collector_view(node, m, texts, cd@, descriptor@, optional)],
        _ => Seq::empty(),
    }
}

/// The collector steps that the first `k` use-case output slots add.
pub open spec fn collects_fold(node: NodeSpec, m: ComputingUsecase, texts: Seq<(u128, String)>, k: int) -> Seq<CollectView>
    decreases k,
{
    if k <= 0 {
        Seq::empty()
    } else {
        collects_fold(node, m, texts, k - 1) + output_collects(node, m, texts, m.usecase_spec.output_slots@[k - 1])
    }
}

/// The working state after the flag materials and the input slots.
pub open spec fn after_slots(node: NodeSpec, m: ComputingUsecase, texts: Seq<(u128, String)>) -> Result<AssemblyView, KernelError> {
    match flag_args_fold(empty_assembly(), m, m.usecase_spec.flag_arguments@.len() as int) {
        Err(e) => Err(e),
        Ok(a) => match flag_envs_fold(a, m, m.usecase_spec.flag_environments@.len() as int) {
            Err(e) => Err(e),
            Ok(b) => slots_fold(b, node, m, texts, m.usecase_spec.input_slots@.len() as int),
        },
    }
}

/// The files of a compiled task's execution step: the input slots' files in
/// slot order, then the referenced templates' files, then the output files in
/// output-slot order.
pub open spec fn compiled_files(node: NodeSpec, m: ComputingUsecase, texts: Seq<(u128, String)>) -> Seq<FileView> {
    match after_slots(node, m, texts) {
        Ok(c) => slots_files_fold(node, m, m.usecase_spec.input_slots@.len() as int) + templates_files_fold(m, c.3, c.3.len() as int)
            + output_files_fold(node, m, texts, m.usecase_spec.output_slots@.len() as int),
        Err(_) => Seq::empty(),
    }
}

/// Whether `task`'s execution step has the compiled files and is followed by
/// exactly the compiled collector steps, in output-slot order.
pub open spec fn has_compiled_entries(task: Task, node: NodeSpec, m: ComputingUsecase, texts: Seq<(u128, String)>, deploy: bool) -> bool {
    let d: int = if deploy { 1 } else { 0 };
    let cs = collects_fold(node, m, texts, m.usecase_spec.output_slots@.len() as int);
    &&& task.body@.len() == d + 1 + cs.len()
    &&& task.body@[d] matches TaskBody::UsecaseExecution { files, .. } && files_view(files@) == compiled_files(node, m, texts)
    &&& forall|j: int| d < j < task.body@.len() ==> collect_view(#[trigger] task.body@[j]) == cs[j - d - 1]
}

/// The compiler's working state.
struct Assembly {
    args: Vec<(usize, FormatFill)>,
    envs: Vec<(String, FormatFill)>,
    files: Vec<FileInfo>,
    std_in: StdInKind,
    templates: Vec<(String, Vec<(String, Option<String>)>)>,
}

/// A copy of an optional string.
fn copy_opt(o: &Option<String>) -> (r: Option<String>)
    ensures
        opt_view(r) == opt_view(*o),
{
    match o {
        Some(x) => Some(x.clone()),
        None => None,
    }
}

impl Assembly {
    spec fn wf(&self) -> bool {
        keys_ascend(arg_table_view(self.args@))
    }

    /// The working state as text.
    spec fn view(&self) -> AssemblyView {
        (arg_table_view(self.args@), env_table_view(self.envs@), stdin_view(self.std_in), templates_view(self.templates@))
    }

    /// Fills argument material `descriptor` at sort `sort`, placeholder `nth`.
    fn fill_arg(&mut self, m: &ComputingUsecase, descriptor: &String, sort: usize, nth: usize, v: Option<String>) -> (r: Result<(), KernelError>)
        requires
            old(self).wf(),
        ensures
            final(self).wf(),
            outputs_have_paths(old(self).files@) ==> outputs_have_paths(final(self).files@),
            no_outputs(old(self).files@) ==> no_outputs(final(self).files@),
            final(self).files == old(self).files,
            r matches Err(e) ==> arg_step(old(self).view(), *m, *descriptor, sort, Some((nth, opt_view(v)))) == Err::<AssemblyView, KernelError>(e),
            r is Ok ==> Ok::<AssemblyView, KernelError>(final(self).view()) == arg_step(old(self).view(), *m, *descriptor, sort, Some((nth, opt_view(v)))),
    {
        let f = SoftwareComputingUsecaseService::argument_format(&m.arguments, descriptor)?;
        proof {
            let ghost fv = fill_view(Some((nth, v)));
            let ghost fmt = f.format;
            lemma_assoc_update_ascends(arg_table_view(self.args@), sort, crate::format::fill_with(fmt@, fv));
        }
        fill_argument(&mut self.args, sort, &f.format, Some((nth, v)));
        Ok(())
    }

    /// Fills environment material `descriptor` at placeholder `nth`.
    fn fill_env(&mut self, m: &ComputingUsecase, descriptor: &String, nth: usize, v: Option<String>) -> (r: Result<(), KernelError>)
        requires
            old(self).wf(),
        ensures
            final(self).wf(),
            outputs_have_paths(old(self).files@) ==> outputs_have_paths(final(self).files@),
            no_outputs(old(self).files@) ==> no_outputs(final(self).files@),
            final(self).files == old(self).files,
            r matches Err(e) ==> env_step(old(self).view(), *m, *descriptor, Some((nth, opt_view(v)))) == Err::<AssemblyView, KernelError>(e),
            r is Ok ==> Ok::<AssemblyView, KernelError>(final(self).view()) == env_step(old(self).view(), *m, *descriptor, Some((nth, opt_view(v)))),
    {
        let (key, f) = SoftwareComputingUsecaseService::environment_kv_format(&m.environments, descriptor)?;
        fill_environment(&mut self.envs, &key, &f.format, Some((nth, v)));
        Ok(())
    }

    /// Routes the literal of a text slot along one of its references.
    fn route_text(&mut self, m: &ComputingUsecase, r: &TextRef, literal: &Option<String>) -> (res: Result<(), KernelError>)
        requires
            old(self).wf(),
        ensures
            final(self).wf(),
            outputs_have_paths(old(self).files@) ==> outputs_have_paths(final(self).files@),
            no_outputs(old(self).files@) ==> no_outputs(final(self).files@),
            final(self).files == old(self).files,
            res matches Err(e) ==> text_ref_step(old(self).view(), *m, *r, opt_view(*literal)) == Err::<AssemblyView, KernelError>(e),
            res is Ok ==> Ok::<AssemblyView, KernelError>(final(self).view()) == text_ref_step(old(self).view(), *m, *r, opt_view(*literal)),
    {
        match r {
            TextRef::ArgRef { descriptor, sort, placeholder_nth } => self.fill_arg(m, descriptor, *sort, *placeholder_nth, copy_opt(literal)),
            TextRef::EnvRef { descriptor, placeholder_nth } => self.fill_env(m, descriptor, *placeholder_nth, copy_opt(literal)),
            TextRef::StdIn => {
                self.std_in = match literal {
                    Some(x) => StdInKind::Text { text: x.clone() },
                    None => StdInKind::Absent,
                };
                Ok(())
            },
            TextRef::TemplateRef { descriptor, ref_keys } => {
                self.fill_template_keys(descriptor, ref_keys, literal);
                Ok(())
            },
        }
    }

    /// Routes the literal of a file slot along one of its references.
    fn route_file(&mut self, m: &ComputingUsecase, r: &FileRef, literal: &Option<String>) -> (res: Result<(), KernelError>)
        requires
            old(self).wf(),
        ensures
            final(self).wf(),
            outputs_have_paths(old(self).files@) ==> outputs_have_paths(final(self).files@),
            no_outputs(old(self).files@) ==> no_outputs(final(self).files@),
            final(self).files == old(self).files,
            res matches Err(e) ==> file_ref_step(old(self).view(), *m, *r, opt_view(*literal)) == Err::<AssemblyView, KernelError>(e),
            res is Ok ==> Ok::<AssemblyView, KernelError>(final(self).view()) == file_ref_step(old(self).view(), *m, *r, opt_view(*literal)),
    {
        match r {
            FileRef::ArgRef { descriptor, sort, placeholder_nth } => self.fill_arg(m, descriptor, *sort, *placeholder_nth, copy_opt(literal)),
            FileRef::EnvRef { descriptor, placeholder_nth } => self.fill_env(m, descriptor, *placeholder_nth, copy_opt(literal)),
            FileRef::StdIn => {
                self.std_in = match literal {
                    Some(x) => StdInKind::File { path: x.clone() },
                    None => StdInKind::Absent,
                };
                Ok(())
            },
            FileRef::FileInputRef(_) => Ok(()),
            FileRef::TemplateRef { descriptor, ref_keys } => {
                self.fill_template_keys(descriptor, ref_keys, literal);
                Ok(())
            },
        }
    }

    /// Sets every key of template `descriptor` to `literal`.
    fn fill_template_keys(&mut self, descriptor: &String, keys: &Vec<String>, literal: &Option<String>)
        requires
            old(self).wf(),
        ensures
            final(self).wf(),
            outputs_have_paths(old(self).files@) ==> outputs_have_paths(final(self).files@),
            no_outputs(old(self).files@) ==> no_outputs(final(self).files@),
            final(self).files == old(self).files,
            final(self).view() == (old(self).view().0, old(self).view().1, old(self).view().2, keys_fold(old(self).view().3, *descriptor, keys@, opt_view(*literal), keys@.len() as int)),
    {
        let mut i: usize = 0;
        while i < keys.len()
            invariant
                self.wf(),
                self.files == old(self).files,
                i <= keys@.len(),
                self.view() == (old(self).view().0, old(self).view().1, old(self).view().2, keys_fold(old(self).view().3, *descriptor, keys@, opt_view(*literal), i as int)),
            decreases keys@.len() - i,
        {
            fill_template(&mut self.templates, descriptor, &keys[i], copy_opt(literal));
            i += 1;
        }
    }

    /// Routes a rendered template along its `as_content` references.
    fn route_rendered(&mut self, m: &ComputingUsecase, r: &TextRef, rendered: &String) -> (res: Result<(), KernelError>)
        requires
            old(self).wf(),
        ensures
            final(self).wf(),
            outputs_have_paths(old(self).files@) ==> outputs_have_paths(final(self).files@),
            no_outputs(old(self).files@) ==> no_outputs(final(self).files@),
            final(self).files == old(self).files,
            res matches Err(e) ==> rendered_step(old(self).view(), *m, *r, rendered@) == Err::<AssemblyView, KernelError>(e),
            res is Ok ==> Ok::<AssemblyView, KernelError>(final(self).view()) == rendered_step(old(self).view(), *m, *r, rendered@),
    {
        match r {
            TextRef::ArgRef { descriptor, sort, placeholder_nth } => self.fill_arg(m, descriptor, *sort, *placeholder_nth, Some(rendered.clone())),
            TextRef::EnvRef { descriptor, placeholder_nth } => self.fill_env(m, descriptor, *placeholder_nth, Some(rendered.clone())),
            TextRef::StdIn => {
                self.std_in = StdInKind::Text { text: rendered.clone() };
                Ok(())
            },
            TextRef::TemplateRef { .. } => Err(KernelError::UnsupportedRefChain),
        }
    }

    /// Resolves one use-case input slot and routes its literal.
    fn route_slot(&mut self, node_spec: &NodeSpec, m: &ComputingUsecase, texts: &Vec<(u128, String)>, slot: &InputSlot) -> (res: Result<(), KernelError>)
        requires
            old(self).wf(),
        ensures
            final(self).wf(),
            outputs_have_paths(old(self).files@) ==> outputs_have_paths(final(self).files@),
            no_outputs(old(self).files@) ==> no_outputs(final(self).files@),
            res is Ok ==> files_view(final(self).files@) == files_view(old(self).files@) + crate::content::content_files(*node_spec, slot_descriptor(*slot)),
            res is Ok ==> Ok::<AssemblyView, KernelError>(final(self).view()) == slot_step(old(self).view(), *node_spec, *m, texts@, *slot),
            res matches Err(e) ==> slot_step(old(self).view(), *node_spec, *m, texts@, *slot) == Err::<AssemblyView, KernelError>(e),
    {
        let descriptor = match slot {
            InputSlot::Text { descriptor, .. } => descriptor,
            InputSlot::File { descriptor, .. } => descriptor,
        };
        let content = get_content(node_spec, descriptor, texts)?;
        let literal: Option<String> = match &content {
            Some(c) => Some(c.literal.clone()),
            None => None,
        };
        let ghost lit = opt_view(literal);
        assert(content_literal(*node_spec, slot_descriptor(*slot), texts@) == Ok::<Option<Seq<char>>, KernelError>(lit));
        let ghost start = self.view();
        let ghost files0 = self.files@;
        let ghost cf = crate::content::content_files(*node_spec, descriptor@);
        assert(slot_descriptor(*slot) == descriptor@);
        if content.is_none() {
            assert(files_view(self.files@) =~= files_view(files0) + cf);
        }
        if let Some(c) = content {
            let InContent { literal: _, infiles } = c;
            let mut infiles = infiles;
            assert(files_view(self.files@) + files_view(infiles@) =~= files_view(files0) + cf);
            while infiles.len() > 0
                invariant
                    files_view(self.files@) + files_view(infiles@) == files_view(files0) + cf,
                    outputs_have_paths(files0) ==> outputs_have_paths(self.files@),
                    no_outputs(files0) ==> no_outputs(self.files@),
                    outputs_have_paths(infiles@),
                    no_outputs(infiles@),
                    self.wf(),
                    self.view() == start,
                decreases infiles@.len(),
            {
                let ghost inb = infiles@;
                let f = infiles.remove(0);
                let ghost before = self.files@;
                self.files.push(f);
                assert forall|j: int| 0 <= j < before.len() implies self.files@[j] == before[j] by {}
                assert(files_view(self.files@) =~= files_view(before).push(file_view(f)));
                assert(files_view(inb) =~= seq![file_view(f)] + files_view(infiles@));
                assert(files_view(self.files@) + files_view(infiles@) =~= files_view(before) + files_view(inb));
            }
            assert(files_view(infiles@) =~= Seq::<FileView>::empty());
            assert(files_view(self.files@) =~= files_view(files0) + cf);
        }
        let ghost files1 = self.files@;
        match slot {
            InputSlot::Text { ref_materials, .. } => {
                let mut k: usize = 0;
                while k < ref_materials.len()
                    invariant
                        self.files@ == files1,
                        files_view(files1) == files_view(files0) + cf,
                        cf == crate::content::content_files(*node_spec, slot_descriptor(*slot)),
                        files0 == old(self).files@,
                        start == old(self).view(),
                        content_literal(*node_spec, slot_descriptor(*slot), texts@) == Ok::<Option<Seq<char>>, KernelError>(lit),
                        *slot matches InputSlot::Text { ref_materials: rm, .. } && rm@ == ref_materials@,
                        outputs_have_paths(files0) ==> outputs_have_paths(self.files@),
                    no_outputs(files0) ==> no_outputs(self.files@),
                        self.wf(),
                        k <= ref_materials@.len(),
                        lit == opt_view(literal),
                        Ok::<AssemblyView, KernelError>(self.view()) == text_refs_fold(start, *m, ref_materials@, lit, k as int),
                    decreases ref_materials@.len() - k,
                {
                    match self.route_text(m, &ref_materials[k], &literal) {
                        Ok(()) => {},
                        Err(e) => {
                            proof {
                                lemma_text_refs_fold_sticks(start, *m, ref_materials@, lit, k + 1, ref_materials@.len() as int);
                            }
                            return Err(e);
                        },
                    }
                    k += 1;
                }
            },
            InputSlot::File { ref_materials, .. } => {
                let mut k: usize = 0;
                while k < ref_materials.len()
                    invariant
                        self.files@ == files1,
                        files_view(files1) == files_view(files0) + cf,
                        cf == crate::content::content_files(*node_spec, slot_descriptor(*slot)),
                        files0 == old(self).files@,
                        start == old(self).view(),
                        content_literal(*node_spec, slot_descriptor(*slot), texts@) == Ok::<Option<Seq<char>>, KernelError>(lit),
                        *slot matches InputSlot::File { ref_materials: rm, .. } && rm@ == ref_materials@,
                        outputs_have_paths(files0) ==> outputs_have_paths(self.files@),
                    no_outputs(files0) ==> no_outputs(self.files@),
                        self.wf(),
                        k <= ref_materials@.len(),
                        lit == opt_view(literal),
                        Ok::<AssemblyView, KernelError>(self.view()) == file_refs_fold(start, *m, ref_materials@, lit, k as int),
                    decreases ref_materials@.len() - k,
                {
                    match self.route_file(m, &ref_materials[k], &literal) {
                        Ok(()) => {},
                        Err(e) => {
                            proof {
                                lemma_file_refs_fold_sticks(start, *m, ref_materials@, lit, k + 1, ref_materials@.len() as int);
                            }
                            return Err(e);
                        },
                    }
                    k += 1;
                }
            },
        }
        Ok(())
    }

    /// Renders one referenced template and routes the result.
    fn route_template(&mut self, m: &ComputingUsecase, desc: &String, kv: &Vec<(String, Option<String>)>) -> (res: Result<(), KernelError>)
        requires
            old(self).wf(),
        ensures
            final(self).wf(),
            outputs_have_paths(old(self).files@) ==> outputs_have_paths(final(self).files@),
            no_outputs(old(self).files@) ==> no_outputs(final(self).files@),
            res is Ok ==> files_view(final(self).files@) == files_view(old(self).files@) + template_files_of(*m, (*desc, crate::format::kv_view(kv@))),
            res is Ok ==> Ok::<AssemblyView, KernelError>(final(self).view()) == template_step(old(self).view(), *m, (*desc, crate::format::kv_view(kv@))),
            res matches Err(e) ==> template_step(old(self).view(), *m, (*desc, crate::format::kv_view(kv@))) == Err::<AssemblyView, KernelError>(e),
    {
        let spec = &m.usecase_spec;
        let ghost start = self.view();
        let ghost files0 = self.files@;
        let mut t: usize = 0;
        while t < spec.template_files.len() && spec.template_files[t].descriptor != *desc
            invariant
                t <= spec.template_files@.len(),
                forall|j: int| 0 <= j < t ==> !template_named(desc@)(#[trigger] spec.template_files@[j]),
            decreases spec.template_files@.len() - t,
        {
            t += 1;
        }
        if t >= spec.template_files.len() {
            proof {
                crate::seqs::lemma_first_index_none(spec.template_files@, template_named(desc@));
            }
            return Err(KernelError::NoSuchMaterial { descriptor: desc.clone() });
        }
        proof {
            crate::seqs::lemma_first_index_found(spec.template_files@, template_named(desc@), t as int);
        }
        let using = &spec.template_files[t];
        let mut u: usize = 0;
        while u < m.template_file_infos.len() && m.template_file_infos[u].descriptor != *desc
            invariant
                u <= m.template_file_infos@.len(),
                forall|j: int| 0 <= j < u ==> !template_info_named(desc@)(#[trigger] m.template_file_infos@[j]),
            decreases m.template_file_infos@.len() - u,
        {
            u += 1;
        }
        if u >= m.template_file_infos.len() {
            proof {
                crate::seqs::lemma_first_index_none(m.template_file_infos@, template_info_named(desc@));
            }
            return Err(KernelError::NoSuchMaterial { descriptor: desc.clone() });
        }
        proof {
            crate::seqs::lemma_first_index_found(m.template_file_infos@, template_info_named(desc@), u as int);
        }
        let info = &m.template_file_infos[u];
        if !is_partial_free(&info.content) {
            return Err(KernelError::UnsupportedRefChain);
        }
        let rendered = match render_template(&info.content, kv) {
            Some(x) => x,
            None => {
                return Err(KernelError::TemplateFailed);
            },
        };
        let mut k: usize = 0;
        while k < using.as_content.len()
            invariant
                start == old(self).view(),
                files0 == old(self).files@,
                spec == m.usecase_spec,
                t < spec.template_files@.len(),
                first_index(spec.template_files@, template_named(desc@)) == t,
                *using == spec.template_files@[t as int],
                u < m.template_file_infos@.len(),
                first_index(m.template_file_infos@, template_info_named(desc@)) == u,
                *info == m.template_file_infos@[u as int],
                template_render(info.content@, crate::format::kv_view(kv@)) == Some(rendered@),
                partial_free(info.content@),
                outputs_have_paths(files0) ==> outputs_have_paths(self.files@),
                    no_outputs(files0) ==> no_outputs(self.files@),
                self.wf(),
                k <= using.as_content@.len(),
                Ok::<AssemblyView, KernelError>(self.view()) == rendered_fold(start, *m, using.as_content@, rendered@, k as int),
                self.files@ == files0,
            decreases using.as_content@.len() - k,
        {
            match self.route_rendered(m, &using.as_content[k], &rendered) {
                Ok(()) => {},
                Err(e) => {
                    proof {
                        lemma_rendered_fold_sticks(start, *m, using.as_content@, rendered@, k + 1, using.as_content@.len() as int);
                    }
                    return Err(e);
                },
            }
            k += 1;
        }
        let ghost middle = self.view();
        let fills_in_place = using.as_file_name.len() == 0 || (using.as_file_name.len() == 1
            && matches!(using.as_file_name[0], FileRef::FileInputRef(_)));
        let ghost dyn_files: Seq<FileView> = if inline_only(*using) {
            Seq::empty()
        } else {
            seq![(0int, info.file_name@, false, false, 0u128, 1int, rendered@)]
        };
        assert(fills_in_place == inline_only(*using));
        if !fills_in_place {
            let ghost before = self.files@;
            self.files.push(FileInfo::Input { path: info.file_name.clone(), is_package: false, form: InFileForm::Content(rendered.clone()) });
            assert forall|j: int| 0 <= j < before.len() implies self.files@[j] == before[j] by {}
            assert(self.view() =~= middle);
        }
        assert(files_view(self.files@) =~= files_view(files0) + dyn_files + name_files_fold(*m, using.as_file_name@, rendered@, 0));
        let mut k: usize = 0;
        while k < using.as_file_name.len()
            invariant
                start == old(self).view(),
                files0 == old(self).files@,
                spec == m.usecase_spec,
                t < spec.template_files@.len(),
                first_index(spec.template_files@, template_named(desc@)) == t,
                *using == spec.template_files@[t as int],
                u < m.template_file_infos@.len(),
                first_index(m.template_file_infos@, template_info_named(desc@)) == u,
                *info == m.template_file_infos@[u as int],
                template_render(info.content@, crate::format::kv_view(kv@)) == Some(rendered@),
                partial_free(info.content@),
                Ok::<AssemblyView, KernelError>(middle) == rendered_fold(start, *m, using.as_content@, rendered@, using.as_content@.len() as int),
                outputs_have_paths(files0) ==> outputs_have_paths(self.files@),
                    no_outputs(files0) ==> no_outputs(self.files@),
                self.wf(),
                k <= using.as_file_name@.len(),
                Ok::<AssemblyView, KernelError>(self.view()) == file_name_fold(middle, *m, using.as_file_name@, info.file_name@, k as int),
                files_view(self.files@) == files_view(files0) + dyn_files + name_files_fold(*m, using.as_file_name@, rendered@, k as int),
            decreases using.as_file_name@.len() - k,
        {
            let ghost fb = files_view(self.files@);
            match self.route_template_file(m, &using.as_file_name[k], &info.file_name, &rendered) {
                Ok(()) => {
                    assert(files_view(self.files@) =~= files_view(files0) + dyn_files + name_files_fold(*m, using.as_file_name@, rendered@, k + 1));
                },
                Err(e) => {
                    proof {
                        lemma_file_name_fold_sticks(middle, *m, using.as_file_name@, info.file_name@, k + 1, using.as_file_name@.len() as int);
                    }
                    return Err(e);
                },
            }
            k += 1;
        }
        Ok(())
    }

    /// Routes a template's file name along its `as_file_name` references.
    fn route_template_file(&mut self, m: &ComputingUsecase, r: &FileRef, file_name: &String, rendered: &String) -> (res: Result<(), KernelError>)
        requires
            old(self).wf(),
        ensures
            final(self).wf(),
            outputs_have_paths(old(self).files@) ==> outputs_have_paths(final(self).files@),
            no_outputs(old(self).files@) ==> no_outputs(final(self).files@),
            res is Ok ==> files_view(final(self).files@) == files_view(old(self).files@) + name_ref_files(*m, *r, rendered@),
            res matches Err(e) ==> file_name_step(old(self).view(), *m, *r, file_name@) == Err::<AssemblyView, KernelError>(e),
            res is Ok ==> Ok::<AssemblyView, KernelError>(final(self).view()) == file_name_step(old(self).view(), *m, *r, file_name@),
    {
        match r {
            FileRef::ArgRef { descriptor, sort, placeholder_nth } => self.fill_arg(m, descriptor, *sort, *placeholder_nth, Some(file_name.clone())),
            FileRef::EnvRef { descriptor, placeholder_nth } => self.fill_env(m, descriptor, *placeholder_nth, Some(file_name.clone())),
            FileRef::StdIn => {
                self.std_in = StdInKind::File { path: file_name.clone() };
                Ok(())
            },
            FileRef::FileInputRef(d) => {
                let mut i: usize = 0;
                while i < m.filesome_inputs.len()
                    invariant
                        self.wf(),
                        self.files == old(self).files,
                        self.view() == old(self).view(),
                        *r == FileRef::FileInputRef(*d),
                        i <= m.filesome_inputs@.len(),
                        forall|j: int| 0 <= j < i ==> !input_material_named(d@)(#[trigger] m.filesome_inputs@[j]),
                    decreases m.filesome_inputs@.len() - i,
                {
                    if m.filesome_inputs[i].descriptor == *d {
                        proof {
                            crate::seqs::lemma_first_index_found(m.filesome_inputs@, input_material_named(d@), i as int);
                        }
                        let (path, is_package) = match &m.filesome_inputs[i].file_kind {
                            FileKind::Normal(w) => (w.clone(), false),
                            FileKind::Batched(w) => (w.clone(), true),
                        };
                        let ghost before = self.files@;
                        let ghost v0 = self.view();
                        self.files.push(FileInfo::Input { path, is_package, form: InFileForm::Content(rendered.clone()) });
                        assert(self.view() =~= v0);
                        assert forall|j: int| 0 <= j < before.len() implies self.files@[j] == before[j] by {}
                        return Ok(());
                    }
                    i += 1;
                }
                proof {
                    crate::seqs::lemma_first_index_none(m.filesome_inputs@, input_material_named(d@));
                }
                Err(KernelError::NoSuchMaterial { descriptor: d.clone() })
            },
            FileRef::TemplateRef { .. } => Err(KernelError::UnsupportedRefChain),
        }
    }
}

/// A result without its value.
pub open spec fn ok_unit<T>(r: Result<T, KernelError>) -> Result<(), KernelError> {
    match r {
        Ok(_) => Ok(()),
        Err(e) => Err(e),
    }
}

/// Collectors with this descriptor.
pub open spec fn collector_named(d: Seq<char>) -> spec_fn(crate::package::CollectedOut) -> bool {
    |c: crate::package::CollectedOut| c.descriptor@ == d
}

/// Output materials with this descriptor.
pub open spec fn output_material_named(d: Seq<char>) -> spec_fn(crate::package::FilesomeOutput) -> bool {
    |f: crate::package::FilesomeOutput| f.descriptor@ == d
}

/// Use-case file output slots with this descriptor.
pub open spec fn file_out_slot_named(d: Seq<char>) -> spec_fn(OutputSlot) -> bool {
    |s: OutputSlot| s matches OutputSlot::File { descriptor, .. } && descriptor@ == d
}

/// Whether an input slot can appoint an output path: a text slot with a
/// stored first text.
pub open spec fn override_check(node: NodeSpec, a: AppointedBy, texts: Seq<(u128, String)>) -> Result<(), KernelError> {
    match a {
        AppointedBy::Material => Ok(()),
        AppointedBy::InputSlot { text_input_descriptor } => {
            let i = first_index(node.input_slots@, crate::slots::in_named(text_input_descriptor@));
            if !(0 <= i < node.input_slots@.len()) {
                Err(KernelError::NoSuchSlot)
            } else {
                match node.input_slots@[i].kind {
                    NodeInputSlotKind::Text { contents: Some(ids), .. } => if ids@.len() == 0 {
                        Err(KernelError::RequiredSlotEmpty)
                    } else if crate::content::text_of(texts, ids@[0]) is Some {
                        Ok(())
                    } else {
                        Err(KernelError::MissingText)
                    },
                    NodeInputSlotKind::Text { contents: None, .. } => Err(KernelError::RequiredSlotEmpty),
                    _ => Err(KernelError::MismatchedInputKind),
                }
            }
        },
    }
}

/// Whether a use-case output file resolves: its material exists and any
/// appointing slot can name it.
pub open spec fn usecase_out_check(node: NodeSpec, m: ComputingUsecase, texts: Seq<(u128, String)>, fo: FileOutAndAppointedBy) -> Result<(), KernelError> {
    let i = first_index(m.filesome_outputs@, output_material_named(fo.file_out_material_descriptor@));
    if !(0 <= i < m.filesome_outputs@.len()) {
        Err(KernelError::NoSuchMaterial { descriptor: fo.file_out_material_descriptor })
    } else {
        override_check(node, fo.kind, texts)
    }
}

/// Whether a collector's source resolves.
pub open spec fn from_check(node: NodeSpec, m: ComputingUsecase, texts: Seq<(u128, String)>, from: CollectFrom) -> Result<(), KernelError> {
    match from {
        CollectFrom::FileOut(fd) => {
            let j = first_index(m.usecase_spec.output_slots@, file_out_slot_named(fd@));
            if !(0 <= j < m.usecase_spec.output_slots@.len()) {
                Ok(())
            } else {
                match m.usecase_spec.output_slots@[j] {
                    OutputSlot::File { origin: FileOutOrigin::UsecaseOut(fo), .. } => usecase_out_check(node, m, texts, fo),
                    OutputSlot::File { origin: FileOutOrigin::CollectedOut(_), .. } => Err(KernelError::UnsupportedRefChain),
                    _ => Ok(()),
                }
            }
        },
        _ => Ok(()),
    }
}

/// Whether the node's output slot `d` has a first id of the right kind.
pub open spec fn id_check(node: NodeSpec, d: Seq<char>, file: bool) -> Result<(), KernelError> {
    let n = first_index(node.output_slots@, out_named(d));
    if !(0 <= n < node.output_slots@.len()) {
        Err(KernelError::NoSuchSlot)
    } else if file != (node.output_slots@[n].kind is File) {
        Err(KernelError::SlotKindMismatch)
    } else if prepared_ids(node.output_slots@[n].kind).len() == 0 {
        Err(KernelError::MissingOutput { nth: 0 })
    } else {
        Ok(())
    }
}

/// Whether a collector step for output slot `d` resolves.
pub open spec fn collector_check(node: NodeSpec, m: ComputingUsecase, texts: Seq<(u128, String)>, cd: String, d: Seq<char>, to_file: bool) -> Result<(), KernelError> {
    let c = first_index(m.collected_outs@, collector_named(cd@));
    if !(0 <= c < m.collected_outs@.len()) {
        Err(KernelError::NoSuchCollector { descriptor: cd })
    } else {
        let co = m.collected_outs@[c];
        match from_check(node, m, texts, co.from) {
            Err(e) => Err(e),
            Ok(()) => if to_file != (co.to is File) {
                Err(KernelError::MismatchedCollectTarget)
            } else {
                id_check(node, d, to_file)
            },
        }
    }
}

/// Whether one use-case output slot resolves.
pub open spec fn output_check(node: NodeSpec, m: ComputingUsecase, texts: Seq<(u128, String)>, s: OutputSlot) -> Result<(), KernelError> {
    match s {
        OutputSlot::Text { descriptor, collected_out_descriptor, .. } => collector_check(node, m, texts, collected_out_descriptor, descriptor@, false),
        OutputSlot::File { descriptor, origin: FileOutOrigin::CollectedOut(cd), .. } => collector_check(node, m, texts, cd, descriptor@, true),
        OutputSlot::File { descriptor, origin: FileOutOrigin::UsecaseOut(fo), .. } => match usecase_out_check(node, m, texts, fo) {
            Err(e) => Err(e),
            Ok(()) => if usecase_out_path(node, m, texts, fo).len() == 0 {
                Err(KernelError::NoSuchMaterial { descriptor: fo.file_out_material_descriptor })
            } else {
                id_check(node, descriptor@, true)
            },
        },
    }
}

/// Whether the first `k` use-case output slots resolve.
pub open spec fn outputs_fold(node: NodeSpec, m: ComputingUsecase, texts: Seq<(u128, String)>, k: int) -> Result<(), KernelError>
    decreases k,
{
    if k <= 0 {
        Ok(())
    } else {
        match outputs_fold(node, m, texts, k - 1) {
            Err(e) => Err(e),
            Ok(()) => output_check(node, m, texts, m.usecase_spec.output_slots@[k - 1]),
        }
    }
}

proof fn lemma_outputs_fold_sticks(node: NodeSpec, m: ComputingUsecase, texts: Seq<(u128, String)>, k: int, n: int)
    requires
        0 <= k <= n,
        outputs_fold(node, m, texts, k) is Err,
    ensures
        outputs_fold(node, m, texts, n) == outputs_fold(node, m, texts, k),
    decreases n - k,
{
    if k < n {
        lemma_outputs_fold_sticks(node, m, texts, k, n - 1);
    }
}

/// The path that an input slot appoints for an output file: the stored text
/// of the first id bound on that text slot.
fn output_override(node: &NodeSpec, a: &AppointedBy, texts: &Vec<(u128, String)>) -> (r: Result<Option<String>, KernelError>)
    ensures
        *a is Material ==> r == Ok::<Option<String>, KernelError>(None),
        r matches Ok(Some(p)) ==> exists|i: int| 0 <= i < texts@.len() && p@ == (#[trigger] texts@[i]).1@,
        ok_unit(r) == override_check(*node, *a, texts@),
        r matches Ok(o) ==> opt_view(o) == override_text(*node, *a, texts@),
{
    match a {
        AppointedBy::Material => Ok(None),
        AppointedBy::InputSlot { text_input_descriptor } => {
            proof {
                crate::seqs::lemma_first_index_range(node.input_slots@, crate::slots::in_named(text_input_descriptor@));
            }
            let slot = match node.input_slot(text_input_descriptor) {
                Some(s) => s,
                None => {
                    return Err(KernelError::NoSuchSlot);
                },
            };
            match &slot.kind {
                NodeInputSlotKind::Text { contents: Some(ids), .. } => {
                    if ids.len() == 0 {
                        return Err(KernelError::RequiredSlotEmpty);
                    }
                    let t = lookup_text(texts, ids[0])?;
                    proof {
                        crate::seqs::lemma_first_index_range(texts@, crate::content::text_with_id(ids@[0]));
                        let i = first_index(texts@, crate::content::text_with_id(ids@[0]));
                        assert(t@ == texts@[i].1@);
                    }
                    Ok(Some(t))
                },
                NodeInputSlotKind::Text { contents: None, .. } => Err(KernelError::RequiredSlotEmpty),
                _ => Err(KernelError::MismatchedInputKind),
            }
        },
    }
}

/// The default path of output material `d` and whether it is a batch.
fn output_material(m: &ComputingUsecase, d: &String) -> (r: Result<(String, bool), KernelError>)
    ensures
        r matches Ok((p, _)) ==> exists|i: int| 0 <= i < m.filesome_outputs@.len() && p@ == kind_path(#[trigger] m.filesome_outputs@[i].file_kind),
        r is Ok <==> 0 <= first_index(m.filesome_outputs@, output_material_named(d@)) < m.filesome_outputs@.len(),
        r matches Err(e) ==> e == (KernelError::NoSuchMaterial { descriptor: *d }),
        r matches Ok((p, b)) ==> p@ == kind_path(m.filesome_outputs@[first_index(m.filesome_outputs@, output_material_named(d@))].file_kind)
            && b == (m.filesome_outputs@[first_index(m.filesome_outputs@, output_material_named(d@))].file_kind is Batched),
{
    let mut i: usize = 0;
    while i < m.filesome_outputs.len()
        invariant
            i <= m.filesome_outputs@.len(),
            forall|j: int| 0 <= j < i ==> !output_material_named(d@)(#[trigger] m.filesome_outputs@[j]),
        decreases m.filesome_outputs@.len() - i,
    {
        if m.filesome_outputs[i].descriptor == *d {
            proof {
                crate::seqs::lemma_first_index_found(m.filesome_outputs@, output_material_named(d@), i as int);
            }
            assert(kind_path(m.filesome_outputs@[i as int].file_kind) == kind_path(m.filesome_outputs@[i as int].file_kind));
            return Ok(match &m.filesome_outputs[i].file_kind {
                FileKind::Normal(p) => (p.clone(), false),
                FileKind::Batched(p) => (p.clone(), true),
            });
        }
        i += 1;
    }
    proof {
        crate::seqs::lemma_first_index_none(m.filesome_outputs@, output_material_named(d@));
    }
    Err(KernelError::NoSuchMaterial { descriptor: d.clone() })
}

/// The path of use-case output file `fd`, with any override applied; empty
/// where the use case declares no such file output.
fn fileout_path(node: &NodeSpec, m: &ComputingUsecase, fd: &String, texts: &Vec<(u128, String)>) -> (r: Result<String, KernelError>)
    ensures
        ok_unit(r) == from_check(*node, *m, texts@, CollectFrom::FileOut(*fd)),
        r matches Ok(p) ==> p@ == fileout_path_text(*node, *m, texts@, fd@),
{
    let slots = &m.usecase_spec.output_slots;
    let mut i: usize = 0;
    while i < slots.len()
        invariant
            *slots == m.usecase_spec.output_slots,
            i <= slots@.len(),
            forall|j: int| 0 <= j < i ==> !file_out_slot_named(fd@)(#[trigger] slots@[j]),
        decreases slots@.len() - i,
    {
        if let OutputSlot::File { descriptor, origin, .. } = &slots[i] {
            if *descriptor == *fd {
                proof {
                    crate::seqs::lemma_first_index_found(slots@, file_out_slot_named(fd@), i as int);
                }
                return match origin {
                    FileOutOrigin::CollectedOut(_) => Err(KernelError::UnsupportedRefChain),
                    FileOutOrigin::UsecaseOut(fo) => {
                        let (default, _) = output_material(m, &fo.file_out_material_descriptor)?;
                        match output_override(node, &fo.kind, texts)? {
                            Some(p) => Ok(p),
                            None => Ok(default),
                        }
                    },
                };
            }
        }
        i += 1;
    }
    proof {
        crate::seqs::lemma_first_index_none(slots@, file_out_slot_named(fd@));
    }
    Ok(String::new())
}

/// Where a collector reads from, resolved.
fn collect_from(node: &NodeSpec, m: &ComputingUsecase, from: &CollectFrom, texts: &Vec<(u128, String)>) -> (r: Result<TaskCollectFrom, KernelError>)
    ensures
        *from is Stdout ==> r matches Ok(TaskCollectFrom::Stdout),
        *from is Stderr ==> r matches Ok(TaskCollectFrom::Stderr),
        ok_unit(r) == from_check(*node, *m, texts@, *from),
        r matches Ok(f) ==> task_from_view(f) == from_spec(*node, *m, texts@, *from),
{
    match from {
        CollectFrom::FileOut(fd) => Ok(TaskCollectFrom::FileOut { path: fileout_path(node, m, fd, texts)? }),
        CollectFrom::Stdout => Ok(TaskCollectFrom::Stdout),
        CollectFrom::Stderr => Ok(TaskCollectFrom::Stderr),
    }
}

/// The task's form of a collect rule.
pub fn collect_rule(r: &CollectRule) -> (t: TaskCollectRule)
    ensures
        match (*r, t) {
            (CollectRule::Regex(a), TaskCollectRule::Regex(b)) => a@ == b@,
            (CollectRule::BottomLines(a), TaskCollectRule::BottomLines(b)) => a == b,
            (CollectRule::TopLines(a), TaskCollectRule::TopLines(b)) => a == b,
            _ => false,
        },
        task_rule_view(t) == rule_spec(*r),
{
    match r {
        CollectRule::Regex(p) => TaskCollectRule::Regex(p.clone()),
        CollectRule::BottomLines(n) => TaskCollectRule::BottomLines(*n),
        CollectRule::TopLines(n) => TaskCollectRule::TopLines(*n),
    }
}

/// The collector with descriptor `d`.
fn find_collector<'a>(m: &'a ComputingUsecase, d: &String) -> (r: Result<&'a crate::package::CollectedOut, KernelError>)
    ensures
        r is Ok <==> 0 <= first_index(m.collected_outs@, collector_named(d@)) < m.collected_outs@.len(),
        r matches Ok(c) ==> *c == m.collected_outs@[first_index(m.collected_outs@, collector_named(d@))],
        r matches Err(e) ==> e == (KernelError::NoSuchCollector { descriptor: *d }),
{
    let mut i: usize = 0;
    while i < m.collected_outs.len()
        invariant
            i <= m.collected_outs@.len(),
            forall|j: int| 0 <= j < i ==> !collector_named(d@)(#[trigger] m.collected_outs@[j]),
        decreases m.collected_outs@.len() - i,
    {
        if m.collected_outs[i].descriptor == *d {
            proof {
                crate::seqs::lemma_first_index_found(m.collected_outs@, collector_named(d@), i as int);
            }
            return Ok(&m.collected_outs[i]);
        }
        i += 1;
    }
    proof {
        crate::seqs::lemma_first_index_none(m.collected_outs@, collector_named(d@));
    }
    Err(KernelError::NoSuchCollector { descriptor: d.clone() })
}

/// The single pre-allocated id of output slot `d` of the node.
fn first_output_id(node: &NodeSpec, d: &String, file: bool) -> (r: Result<u128, KernelError>)
    ensures
        r matches Ok(id) ==> 0 <= first_index(node.output_slots@, out_named(d@)) < node.output_slots@.len()
            && prepared_ids(node.output_slots@[first_index(node.output_slots@, out_named(d@))].kind).len() > 0
            && id == first_output_of(*node, d@),
        ok_unit(r) == id_check(*node, d@, file),
{
    proof {
        crate::seqs::lemma_first_index_range(node.output_slots@, out_named(d@));
    }
    let slot = match node.output_slot(d) {
        Some(s) => s,
        None => {
            return Err(KernelError::NoSuchSlot);
        },
    };
    let ids = if file {
        slot.all_tasks_file_outputs()?
    } else {
        slot.all_tasks_text_outputs()?
    };
    if ids.len() == 0 {
        Err(KernelError::MissingOutput { nth: 0 })
    } else {
        Ok(ids[0])
    }
}

/// What one use-case output slot adds to a task.
enum OutputStep {
    Collect(TaskBody),
    File(FileInfo),
}

/// Resolves one use-case output slot: a collector step, or an output file.
fn output_step(node_spec: &NodeSpec, m: &ComputingUsecase, texts: &Vec<(u128, String)>, slot: &OutputSlot) -> (r: Result<OutputStep, KernelError>)
    ensures
        ok_unit(r) == output_check(*node_spec, *m, texts@, *slot),
        r matches Ok(OutputStep::Collect(b)) ==> b is CollectedOut,
        r matches Ok(OutputStep::File(f)) ==> f is Output && f->Output_id == first_output_of(*node_spec, output_descriptor(*slot))
            && first_output_valid(*node_spec, output_descriptor(*slot))
            && f->Output_path@.len() > 0,
        r matches Ok(OutputStep::File(f)) ==> seq![file_view(f)] == output_files(*node_spec, *m, texts@, *slot)
            && output_collects(*node_spec, *m, texts@, *slot).len() == 0,
        r matches Ok(OutputStep::Collect(b)) ==> seq![collect_view(b)] == output_collects(*node_spec, *m, texts@, *slot)
            && output_files(*node_spec, *m, texts@, *slot).len() == 0,
        r matches Ok(OutputStep::Collect(b)) ==> (target_id(b) is Some ==> target_id(b) == Some(first_output_of(*node_spec, output_descriptor(*slot)))
            && first_output_valid(*node_spec, output_descriptor(*slot))),
{
    match slot {
        OutputSlot::Text { descriptor, collected_out_descriptor, optional } => {
            let c = find_collector(m, collected_out_descriptor)?;
            let from = collect_from(node_spec, m, &c.from, texts)?;
            let to = match &c.to {
                CollectTo::Text => TaskCollectTo::Text { id: first_output_id(node_spec, descriptor, false)? },
                _ => {
                    return Err(KernelError::MismatchedCollectTarget);
                },
            };
            Ok(OutputStep::Collect(TaskBody::CollectedOut { from, rule: collect_rule(&c.collecting), to, optional: *optional }))
        },
        OutputSlot::File { descriptor, origin, optional } => {
            match origin {
                FileOutOrigin::CollectedOut(cd) => {
                    let c = find_collector(m, cd)?;
                    let from = collect_from(node_spec, m, &c.from, texts)?;
                    let to = match &c.to {
                        CollectTo::File { path } => TaskCollectTo::File { path: path.clone(), id: first_output_id(node_spec, descriptor, true)? },
                        _ => {
                            return Err(KernelError::MismatchedCollectTarget);
                        },
                    };
                    Ok(OutputStep::Collect(TaskBody::CollectedOut { from, rule: collect_rule(&c.collecting), to, optional: *optional }))
                },
                FileOutOrigin::UsecaseOut(fo) => {
                    let (default, is_package) = output_material(m, &fo.file_out_material_descriptor)?;
                    let over = output_override(node_spec, &fo.kind, texts)?;
                    let path = match over {
                        Some(p) => p,
                        None => default,
                    };
                    if path.unicode_len() == 0 {
                        return Err(KernelError::NoSuchMaterial { descriptor: fo.file_out_material_descriptor.clone() });
                    }
                    let id = first_output_id(node_spec, descriptor, true)?;
                    Ok(OutputStep::File(FileInfo::Output { id, path, is_package, optional: *optional }))
                },
            }
        },
    }
}

/// The requirements of a compiled task: the node's own, else the use case's.
pub open spec fn effective_requirements(node: Option<Requirements>, usecase: Option<Requirements>) -> Option<Requirements> {
    match node {
        Some(r) => Some(r),
        None => usecase,
    }
}

/// Whether `task` is the compilation of `node` against `m` with working
/// state `st`: an optional deployment step, then the execution of the
/// use-case command with the rendered arguments (in ascending sort order),
/// the rendered environment and the std-in binding of `st`, then collector
/// steps only.
pub open spec fn is_compiled_layout(task: Task, node: NodeSpec, m: ComputingUsecase, deploy: bool, st: AssemblyView) -> bool {
    let d: int = if deploy { 1 } else { 0 };
    &&& task.body@.len() >= d + 1
    &&& deploy ==> (task.body@[0] matches TaskBody::SoftwareDeployment { facility_kind } && facility_matches(
        facility_kind,
        m.software_spec,
    ))
    &&& task.body@[d] matches TaskBody::UsecaseExecution { name, arguments, environments, requirements, facility_kind, std_in, .. }
        && name@ == m.usecase_spec.command_file@
        && requirements == effective_requirements(node.requirements, m.usecase_spec.requirements)
        && facility_matches(facility_kind, m.software_spec)
        && keys_ascend(st.0)
        && arguments@.map_values(|a: String| a@) == rendered_arguments(st.0)
        && environments@.map_values(|e: (String, String)| (e.0@, e.1@)) == rendered_environments(st.1)
        && stdin_view(std_in) == st.2
    &&& forall|j: int| d < j < task.body@.len() ==> (#[trigger] task.body@[j]) is CollectedOut
}

impl SoftwareComputingUsecaseService {
    /// Compiles a software use-case node against its package manifest.
    /// `texts` holds the stored value of each text id the node refers to;
    /// `blocked` and `satisfied` are the block-list and installed-software
    /// answers for the package's software. A deployment step comes first when
    /// the software is neither blocked nor already installed.
    pub fn parse_task(node_spec: &NodeSpec, usecase: &ComputingUsecase, texts: &Vec<(u128, String)>, blocked: bool, satisfied: bool) -> (r: Result<Task, KernelError>)
        ensures
            !(node_spec.kind is SoftwareUsecaseComputing) ==> r == Err::<Task, KernelError>(KernelError::MismatchedInputKind),
            r matches Ok(task) ==> (forall|j: int|
                0 <= j < task.body@.len() ==> (#[trigger] task.body@[j] matches TaskBody::UsecaseExecution { files, .. }
                    ==> outputs_have_paths(files@))),
            r matches Ok(task) ==> task.id == node_spec.id && task.command == TaskCommand::Start,
            r matches Ok(task) ==> has_compiled_entries(task, *node_spec, *usecase, texts@, !blocked && !satisfied),
            r matches Ok(task) ==> (output_descriptors_distinct(*usecase) && first_ids_distinct(*node_spec) ==> forall|j: int|
                0 <= j < task.body@.len() ==> (#[trigger] task.body@[j] matches TaskBody::UsecaseExecution { files, .. }
                    ==> file_ids_unique(files@, task.body@, j + 1))),
            node_spec.kind is SoftwareUsecaseComputing && assemble(*node_spec, *usecase, texts@) is Err ==> r
                == Err::<Task, KernelError>(assemble(*node_spec, *usecase, texts@)->Err_0),
            node_spec.kind is SoftwareUsecaseComputing && assemble(*node_spec, *usecase, texts@) is Ok ==> ok_unit(r)
                == outputs_fold(*node_spec, *usecase, texts@, usecase.usecase_spec.output_slots@.len() as int),
            r matches Ok(task) ==> (assemble(*node_spec, *usecase, texts@) matches Ok(st) && is_compiled_layout(
                task,
                *node_spec,
                *usecase,
                !blocked && !satisfied,
                st,
            )),
    {
        match &node_spec.kind {
            NodeKind::SoftwareUsecaseComputing { .. } => {},
            _ => {
                return Err(KernelError::MismatchedInputKind);
            },
        }
        let m = usecase;
        let spec = &m.usecase_spec;
        let mut work = Assembly {
            args: Vec::new(),
            envs: Vec::new(),
            files: Vec::new(),
            std_in: StdInKind::Absent,
            templates: Vec::new(),
        };
        assert(work.view() =~= empty_assembly());
        assert(files_view(work.files@) =~= Seq::<FileView>::empty());
        // Bare materials anchor the order.
        let mut i: usize = 0;
        while i < spec.flag_arguments.len()
            invariant
                node_spec.kind is SoftwareUsecaseComputing,
                *m == *usecase,
                outputs_have_paths(work.files@),
                no_outputs(work.files@),
                work.wf(),
                i <= spec.flag_arguments@.len(),
                spec == m.usecase_spec,
                Ok::<AssemblyView, KernelError>(work.view()) == flag_args_fold(empty_assembly(), *m, i as int),
                files_view(work.files@) == Seq::<FileView>::empty(),
            decreases spec.flag_arguments@.len() - i,
        {
            let f = match SoftwareComputingUsecaseService::argument_format(&m.arguments, &spec.flag_arguments[i].0) {
                Ok(f) => f,
                Err(e) => {
                    proof {
                        lemma_flag_args_fold_sticks(empty_assembly(), *m, i + 1, spec.flag_arguments@.len() as int);
                    }
                    return Err(e);
                },
            };
            proof {
                let ghost fmt = f.format;
                lemma_assoc_update_ascends(arg_table_view(work.args@), spec.flag_arguments@[i as int].1, crate::format::fill_with(fmt@, None));
            }
            fill_argument(&mut work.args, spec.flag_arguments[i].1, &f.format, None);
            i += 1;
        }
        let ghost after_args = work.view();
        let mut i: usize = 0;
        while i < spec.flag_environments.len()
            invariant
                node_spec.kind is SoftwareUsecaseComputing,
                *m == *usecase,
                outputs_have_paths(work.files@),
                no_outputs(work.files@),
                work.wf(),
                i <= spec.flag_environments@.len(),
                spec == m.usecase_spec,
                Ok::<AssemblyView, KernelError>(after_args) == flag_args_fold(empty_assembly(), *m, spec.flag_arguments@.len() as int),
                Ok::<AssemblyView, KernelError>(work.view()) == flag_envs_fold(after_args, *m, i as int),
                files_view(work.files@) == Seq::<FileView>::empty(),
            decreases spec.flag_environments@.len() - i,
        {
            let (key, f) = match SoftwareComputingUsecaseService::environment_kv_format(&m.environments, &spec.flag_environments[i]) {
                Ok(p) => p,
                Err(e) => {
                    proof {
                        lemma_flag_envs_fold_sticks(after_args, *m, i + 1, spec.flag_environments@.len() as int);
                    }
                    return Err(e);
                },
            };
            fill_environment(&mut work.envs, &key, &f.format, None);
            i += 1;
        }
        let ghost after_envs = work.view();
        // Each input slot's content, routed along its references.
        let mut i: usize = 0;
        while i < spec.input_slots.len()
            invariant
                node_spec.kind is SoftwareUsecaseComputing,
                *m == *usecase,
                outputs_have_paths(work.files@),
                no_outputs(work.files@),
                work.wf(),
                i <= spec.input_slots@.len(),
                spec == m.usecase_spec,
                Ok::<AssemblyView, KernelError>(after_args) == flag_args_fold(empty_assembly(), *m, spec.flag_arguments@.len() as int),
                Ok::<AssemblyView, KernelError>(after_envs) == flag_envs_fold(after_args, *m, spec.flag_environments@.len() as int),
                Ok::<AssemblyView, KernelError>(work.view()) == slots_fold(after_envs, *node_spec, *m, texts@, i as int),
                files_view(work.files@) == slots_files_fold(*node_spec, *m, i as int),
            decreases spec.input_slots@.len() - i,
        {
            match work.route_slot(node_spec, m, texts, &spec.input_slots[i]) {
                Ok(()) => {},
                Err(e) => {
                    proof {
                        lemma_slots_fold_sticks(after_envs, *node_spec, *m, texts@, i + 1, spec.input_slots@.len() as int);
                    }
                    return Err(e);
                },
            }
            i += 1;
        }
        let ghost slots_state = work.view();
        // Each referenced template, rendered and routed.
        let Assembly { args, envs, files, std_in, templates } = work;
        let mut work = Assembly { args, envs, files, std_in, templates: Vec::new() };
        let ghost pass_c = work.view();
        assert(pass_c =~= (slots_state.0, slots_state.1, slots_state.2, Seq::empty()));
        let ghost tv = templates_view(templates@);
        let mut i: usize = 0;
        while i < templates.len()
            invariant
                node_spec.kind is SoftwareUsecaseComputing,
                *m == *usecase,
                outputs_have_paths(work.files@),
                no_outputs(work.files@),
                work.wf(),
                i <= templates@.len(),
                spec == m.usecase_spec,
                tv == templates_view(templates@),
                tv == slots_state.3,
                pass_c == (slots_state.0, slots_state.1, slots_state.2, Seq::<(String, Seq<(Seq<char>, Option<Seq<char>>)>)>::empty()),
                Ok::<AssemblyView, KernelError>(after_args) == flag_args_fold(empty_assembly(), *m, spec.flag_arguments@.len() as int),
                Ok::<AssemblyView, KernelError>(after_envs) == flag_envs_fold(after_args, *m, spec.flag_environments@.len() as int),
                Ok::<AssemblyView, KernelError>(slots_state) == slots_fold(after_envs, *node_spec, *m, texts@, spec.input_slots@.len() as int),
                Ok::<AssemblyView, KernelError>(work.view()) == templates_fold(pass_c, *m, tv, i as int),
                files_view(work.files@) == slots_files_fold(*node_spec, *m, spec.input_slots@.len() as int) + templates_files_fold(*m, tv, i as int),
            decreases templates@.len() - i,
        {
            assert(tv[i as int] == (templates@[i as int].0, crate::format::kv_view(templates@[i as int].1@)));
            match work.route_template(m, &templates[i].0, &templates[i].1) {
                Ok(()) => {},
                Err(e) => {
                    proof {
                        lemma_templates_fold_sticks(pass_c, *m, tv, i + 1, tv.len() as int);
                        assert(assemble(*node_spec, *m, texts@) == templates_fold(pass_c, *m, tv, tv.len() as int));
                    }
                    return Err(e);
                },
            }
            i += 1;
        }
        let ghost final_view = work.view();
        assert(assemble(*node_spec, *m, texts@) == Ok::<AssemblyView, KernelError>(final_view));
        assert(after_slots(*node_spec, *m, texts@) == Ok::<AssemblyView, KernelError>(slots_state));
        assert(files_view(work.files@) =~= slots_files_fold(*node_spec, *m, spec.input_slots@.len() as int) + templates_files_fold(*m, tv, tv.len() as int)
            + output_files_fold(*node_spec, *m, texts@, 0));
        // Each output slot: collectors and output files.
        let mut collected: Vec<TaskBody> = Vec::new();
        assert(collected@.map_values(|b: TaskBody| collect_view(b)) =~= collects_fold(*node_spec, *m, texts@, 0));
        let ghost base = work.files@.len();
        let ghost mut srcs: Seq<int> = Seq::empty();
        let ghost mut csrc: Seq<int> = Seq::empty();
        let mut i: usize = 0;
        while i < spec.output_slots.len()
            invariant
                i <= spec.output_slots@.len(),
                csrc.len() == collected@.len(),
                forall|k: int| 0 <= k < csrc.len() ==> #[trigger] csrc[k] < i,
                forall|k1: int, k2: int| 0 <= k1 < k2 < csrc.len() ==> #[trigger] csrc[k1] < #[trigger] csrc[k2],
                forall|k1: int, k2: int| 0 <= k1 < srcs.len() && 0 <= k2 < csrc.len() ==> #[trigger] srcs[k1] != #[trigger] csrc[k2],
                forall|k: int|
                    0 <= k < csrc.len() ==> (target_id(#[trigger] collected@[k]) is Some ==> 0 <= csrc[k] && target_id(collected@[k]) == Some(
                        first_output_of(*node_spec, output_descriptor(spec.output_slots@[csrc[k]])),
                    ) && first_output_valid(*node_spec, output_descriptor(spec.output_slots@[csrc[k]]))),
                spec == m.usecase_spec,
                work.files@.len() == base + srcs.len(),
                forall|j: int| 0 <= j < base ==> !((#[trigger] work.files@[j]) is Output),
                forall|k: int| 0 <= k < srcs.len() ==> 0 <= #[trigger] srcs[k] < i,
                forall|k1: int, k2: int| 0 <= k1 < k2 < srcs.len() ==> #[trigger] srcs[k1] < #[trigger] srcs[k2],
                forall|k: int|
                    0 <= k < srcs.len() ==> (#[trigger] work.files@[base + k]) is Output && work.files@[base + k]->Output_id
                        == first_output_of(*node_spec, output_descriptor(spec.output_slots@[srcs[k]]))
                        && first_output_valid(*node_spec, output_descriptor(spec.output_slots@[srcs[k]])),
                node_spec.kind is SoftwareUsecaseComputing,
                *m == *usecase,
                outputs_have_paths(work.files@),
                work.wf(),
                work.view() == final_view,
                assemble(*node_spec, *m, texts@) == Ok::<AssemblyView, KernelError>(final_view),
                outputs_fold(*node_spec, *m, texts@, i as int) == Ok::<(), KernelError>(()),
                after_slots(*node_spec, *m, texts@) == Ok::<AssemblyView, KernelError>(slots_state),
                tv == slots_state.3,
                files_view(work.files@) == slots_files_fold(*node_spec, *m, spec.input_slots@.len() as int) + templates_files_fold(*m, tv, tv.len() as int)
                    + output_files_fold(*node_spec, *m, texts@, i as int),
                collected@.map_values(|b: TaskBody| collect_view(b)) == collects_fold(*node_spec, *m, texts@, i as int),
                forall|j: int| 0 <= j < collected@.len() ==> (#[trigger] collected@[j]) is CollectedOut,
            decreases spec.output_slots@.len() - i,
        {
            match output_step(node_spec, m, texts, &spec.output_slots[i]) {
                Err(e) => {
                    proof {
                        lemma_outputs_fold_sticks(*node_spec, *m, texts@, i + 1, spec.output_slots@.len() as int);
                    }
                    return Err(e);
                },
                Ok(OutputStep::Collect(b)) => {
                    let ghost cb = collected@;
                    proof {
                        csrc = csrc.push(i as int);
                    }
                    collected.push(b);
                    assert forall|k: int| 0 <= k < csrc.len() implies (target_id(#[trigger] collected@[k]) is Some ==> 0 <= csrc[k] && target_id(collected@[k]) == Some(
                        first_output_of(*node_spec, output_descriptor(spec.output_slots@[csrc[k]])),
                    ) && first_output_valid(*node_spec, output_descriptor(spec.output_slots@[csrc[k]]))) by {
                        if k < cb.len() {
                            assert(collected@[k] == cb[k]);
                        }
                    }
                    assert(collected@.map_values(|b: TaskBody| collect_view(b)) =~= cb.map_values(|b: TaskBody| collect_view(b)) + seq![collect_view(b)]);
                    assert(work.files@ == work.files@);
                },
                Ok(OutputStep::File(f)) => {
                    let ghost before = work.files@;
                    let ghost fv = file_view(f);
                    work.files.push(f);
                    assert(files_view(work.files@) =~= files_view(before) + seq![fv]);
                    assert forall|j: int| 0 <= j < before.len() implies work.files@[j] == before[j] by {}
                    assert(work.view() =~= final_view);
                    proof {
                        let old_srcs = srcs;
                        srcs = srcs.push(i as int);
                        assert forall|k: int| 0 <= k < srcs.len() implies (#[trigger] work.files@[base + k]) is Output && work.files@[base + k]->Output_id
                            == first_output_of(*node_spec, output_descriptor(spec.output_slots@[srcs[k]]))
                            && first_output_valid(*node_spec, output_descriptor(spec.output_slots@[srcs[k]])) by {
                            if k < old_srcs.len() {
                                assert(srcs[k] == old_srcs[k]);
                                assert(work.files@[base + k] == before[base + k]);
                            }
                        }
                    }
                },
            }
            i += 1;
        }
        proof {
            if output_descriptors_distinct(*m) && first_ids_distinct(*node_spec) {
                assert forall|p: int, q: int|
                    0 <= p < work.files@.len() && 0 <= q < work.files@.len() && p != q && (#[trigger] work.files@[p]) is Output
                        && (#[trigger] work.files@[q]) is Output implies work.files@[p]->Output_id != work.files@[q]->Output_id by {
                    if p < base {
                        assert(!(work.files@[p] is Output));
                    }
                    if q < base {
                        assert(!(work.files@[q] is Output));
                    }
                    let k1 = p - base;
                    let k2 = q - base;
                    assert(base + k1 == p && base + k2 == q);
                    assert(work.files@[base + k1] is Output);
                    assert(work.files@[base + k2] is Output);
                    if k1 < k2 {
                        assert(srcs[k1] < srcs[k2]);
                    } else {
                        assert(srcs[k2] < srcs[k1]);
                    }
                    lemma_slots_give_distinct_ids(*node_spec, *m, srcs[k1], srcs[k2]);
                }
                assert(output_ids_unique(work.files@));
                assert forall|p: int, q: int|
                    0 <= p < work.files@.len() && 0 <= q < collected@.len() && (#[trigger] work.files@[p]) is Output
                        && (#[trigger] target_id(collected@[q])) is Some implies work.files@[p]->Output_id != target_id(collected@[q])->Some_0 by {
                    if p < base {
                        assert(!(work.files@[p] is Output));
                    }
                    let k1 = p - base;
                    assert(base + k1 == p);
                    assert(work.files@[base + k1] is Output);
                    assert(srcs[k1] != csrc[q]);
                    lemma_slots_give_distinct_ids(*node_spec, *m, srcs[k1], csrc[q]);
                }
                assert forall|q1: int, q2: int|
                    0 <= q1 < collected@.len() && 0 <= q2 < collected@.len() && q1 != q2 && (#[trigger] target_id(collected@[q1])) is Some
                        && (#[trigger] target_id(collected@[q2])) is Some implies target_id(collected@[q1]) != target_id(collected@[q2]) by {
                    if q1 < q2 {
                        assert(csrc[q1] < csrc[q2]);
                    } else {
                        assert(csrc[q2] < csrc[q1]);
                    }
                    lemma_slots_give_distinct_ids(*node_spec, *m, csrc[q1], csrc[q2]);
                }
                assert(file_ids_unique(work.files@, collected@, 0));
            }
        }
        // Finalisation.
        assert(files_view(work.files@) == compiled_files(*node_spec, *m, texts@));
        let ghost cs = collected@;
        let ghost fs = work.files@;
        assert(output_descriptors_distinct(*m) && first_ids_distinct(*node_spec) ==> file_ids_unique(fs, cs, 0));
        assert(cs.map_values(|b: TaskBody| collect_view(b)) == collects_fold(*node_spec, *m, texts@, spec.output_slots@.len() as int));
        let arguments = render_arguments(&work.args);
        proof {
            let t = arg_table_view(work.args@);
            assert(rendered_arguments(t) =~= arguments@.map_values(|s: String| s@));
        }
        let environments = render_environments(&work.envs);
        proof {
            assert(rendered_environments(env_table_view(work.envs@)) =~= environments@.map_values(|e: (String, String)| (e.0@, e.1@)));
        }
        let requirements = match node_spec.requirements {
            Some(r) => Some(r),
            None => spec.requirements,
        };
        let exec = TaskBody::UsecaseExecution {
            name: spec.command_file.clone(),
            arguments,
            environments,
            files: work.files,
            facility_kind: facility_of(&m.software_spec),
            std_in: work.std_in,
            requirements,
        };
        let mut body: Vec<TaskBody> = Vec::new();
        if !blocked && !satisfied {
            body.push(TaskBody::SoftwareDeployment { facility_kind: facility_of(&m.software_spec) });
        }
        body.push(exec);
        let ghost head = body@;
        let ghost d = body@.len();
        assert(is_compiled_layout(Task { id: node_spec.id, command: TaskCommand::Start, body }, *node_spec, *m, !blocked && !satisfied, final_view));
        while collected.len() > 0
            invariant
                body@.len() >= d,
                d >= 1,
                body@.len() - d + collected@.len() == cs.len(),
                forall|j: int| 0 <= j < body@.len() - d ==> #[trigger] body@[d + j] == cs[j],
                collected@ == cs.subrange(body@.len() - d, cs.len() as int),
                forall|j: int| 0 <= j < d ==> body@[j] == head[j],
                forall|j: int| 0 <= j < collected@.len() ==> (#[trigger] collected@[j]) is CollectedOut,
                forall|j: int| d <= j < body@.len() ==> (#[trigger] body@[j]) is CollectedOut,
            decreases collected@.len(),
        {
            let ghost bb = body@;
            let c = collected.remove(0);
            body.push(c);
            assert forall|j: int| 0 <= j < body@.len() - d implies #[trigger] body@[d + j] == cs[j] by {
                if j < bb.len() - d {
                    assert(body@[d + j] == bb[d + j]);
                }
            }
            assert(collected@ =~= cs.subrange(body@.len() - d, cs.len() as int));
        }
        assert(is_compiled_layout(Task { id: node_spec.id, command: TaskCommand::Start, body }, *node_spec, *m, !blocked && !satisfied, final_view)) by {
            assert(body@[d - 1] == head[d - 1]);
            assert(body@[0] == head[0]);
        }
        proof {
            if output_descriptors_distinct(*m) && first_ids_distinct(*node_spec) {
                assert(body@[d - 1] == head[d - 1]);
                assert forall|p: int, q: int|
                    0 <= p < fs.len() && d <= q < body@.len() && (#[trigger] fs[p]) is Output && (#[trigger] target_id(body@[q])) is Some
                        implies fs[p]->Output_id != target_id(body@[q])->Some_0 by {
                    assert(body@[d + (q - d)] == cs[q - d]);
                    assert(target_id(cs[q - d]) is Some);
                }
                assert forall|q1: int, q2: int|
                    d <= q1 < body@.len() && d <= q2 < body@.len() && q1 != q2 && (#[trigger] target_id(body@[q1])) is Some
                        && (#[trigger] target_id(body@[q2])) is Some implies target_id(body@[q1]) != target_id(body@[q2]) by {
                    assert(body@[d + (q1 - d)] == cs[q1 - d]);
                    assert(body@[d + (q2 - d)] == cs[q2 - d]);
                    assert(target_id(cs[q1 - d]) is Some);
                    assert(target_id(cs[q2 - d]) is Some);
                }
                assert(file_ids_unique(fs, body@, d as int));
                assert forall|j: int| 0 <= j < body@.len() && (#[trigger] body@[j] matches TaskBody::UsecaseExecution { .. }) implies j == d - 1 by {
                    if j < d - 1 {
                        assert(body@[j] == head[j]);
                    } else if j >= d {
                        assert(body@[d + (j - d)] == cs[j - d]);
                    }
                }
            }
        }
        assert(has_compiled_entries(Task { id: node_spec.id, command: TaskCommand::Start, body }, *node_spec, *m, texts@, !blocked && !satisfied)) by {
            assert(body@[d - 1] == head[d - 1]);
            let cv = collects_fold(*node_spec, *m, texts@, spec.output_slots@.len() as int);
            assert forall|j: int| d - 1 < j < body@.len() implies collect_view(#[trigger] body@[j]) == cv[j - d] by {
                assert(body@[d + (j - d)] == cs[j - d]);
            }
        }
        Ok(Task { id: node_spec.id, command: TaskCommand::Start, body })
    }
}

/// The execution step of a task as plain values: command name, arguments,
/// environment, files, std-in and requirements.
pub open spec fn execution_view(b: TaskBody) -> (Seq<char>, Seq<Seq<char>>, Seq<(Seq<char>, Seq<char>)>, Seq<FileView>, (int, Seq<char>), Option<Requirements>) {
    match b {
        TaskBody::UsecaseExecution { name, arguments, environments, files, std_in, requirements, .. } => (
            name@,
            arguments@.map_values(|a: String| a@),
            environments@.map_values(|e: (String, String)| (e.0@, e.1@)),
            files_view(files@),
            stdin_view(std_in),
            requirements,
        ),
        _ => (Seq::empty(), Seq::empty(), Seq::empty(), Seq::empty(), (0, Seq::empty()), None),
    }
}

/// Compilation is fixed by its inputs: two tasks compiled from the same node,
/// manifest, stored texts and deployment answer have the same steps, the same
/// execution step (name, arguments, environment, files, std-in,
/// requirements) and the same collector steps in the same order.
pub proof fn lemma_compilation_is_pure(
    t1: Task,
    t2: Task,
    node: NodeSpec,
    m: ComputingUsecase,
    texts: Seq<(u128, String)>,
    deploy: bool,
    st: AssemblyView,
)
    requires
        is_compiled_layout(t1, node, m, deploy, st),
        is_compiled_layout(t2, node, m, deploy, st),
        has_compiled_entries(t1, node, m, texts, deploy),
        has_compiled_entries(t2, node, m, texts, deploy),
    ensures
        t1.body@.len() == t2.body@.len(),
        deploy ==> t1.body@[0] is SoftwareDeployment && t2.body@[0] is SoftwareDeployment,
        execution_view(t1.body@[if deploy { 1int } else { 0int }]) == execution_view(t2.body@[if deploy { 1int } else { 0int }]),
        forall|j: int|
            (if deploy { 1int } else { 0int }) < j < t1.body@.len() ==> collect_view(#[trigger] t1.body@[j]) == collect_view(t2.body@[j]),
{
    let d: int = if deploy { 1 } else { 0 };
    let cs = collects_fold(node, m, texts, m.usecase_spec.output_slots@.len() as int);
    assert forall|j: int| d < j < t1.body@.len() implies collect_view(#[trigger] t1.body@[j]) == collect_view(t2.body@[j]) by {
        assert(collect_view(t1.body@[j]) == cs[j - d - 1]);
        assert(collect_view(t2.body@[j]) == cs[j - d - 1]);
    }
}

/// Routes a template's rendered text along its `as_content` references,
/// starting from an empty working state: argument and environment fills and
/// the std-in binding, exactly as the template pass of `parse_task` does.
pub fn route_rendered_text(m: &ComputingUsecase, refs: &Vec<TextRef>, rendered: &String) -> (r: Result<(Vec<(usize, FormatFill)>, Vec<(String, FormatFill)>, StdInKind), KernelError>)
    ensures
        r matches Ok((args, envs, std_in)) ==> (rendered_fold(empty_assembly(), *m, refs@, rendered@, refs@.len() as int) matches Ok(st)
            && st.0 == arg_table_view(args@) && st.1 == env_table_view(envs@) && st.2 == stdin_view(std_in)),
        r matches Err(e) ==> rendered_fold(empty_assembly(), *m, refs@, rendered@, refs@.len() as int) == Err::<AssemblyView, KernelError>(e),
{
    let mut work = Assembly { args: Vec::new(), envs: Vec::new(), files: Vec::new(), std_in: StdInKind::Absent, templates: Vec::new() };
    assert(work.view() =~= empty_assembly());
    assert(arg_table_view(work.args@) =~= Seq::empty());
    let mut k: usize = 0;
    while k < refs.len()
        invariant
            work.wf(),
            k <= refs@.len(),
            Ok::<AssemblyView, KernelError>(work.view()) == rendered_fold(empty_assembly(), *m, refs@, rendered@, k as int),
        decreases refs@.len() - k,
    {
        match work.route_rendered(m, &refs[k], rendered) {
            Ok(()) => {},
            Err(e) => {
                proof {
                    lemma_rendered_fold_sticks(empty_assembly(), *m, refs@, rendered@, k + 1, refs@.len() as int);
                }
                return Err(e);
            },
        }
        k += 1;
    }
    Ok((work.args, work.envs, work.std_in))
}

} // verus!
