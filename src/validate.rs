//! Validating a software package and a use case against each other, giving a
//! preview of the command they make.
use vstd::prelude::*;
use crate::compile::{argument_named, environment_named, facility_of, input_material_named, template_info_named, template_named};
use crate::error::KernelError;
use crate::package::{
    AppointedBy, Argument, CollectFrom, CollectRule, CollectTo, CollectedOut, Environment, FileKind,
    FileOutOrigin, FileRef, FilesomeInput, FilesomeOutput, InputSlot, OutputSlot, SoftwareSpec,
    TemplateFile, TemplateFileInfo, TextRef, UsecaseSpec,
};
use crate::format::{key_is, name_is, name_update, str_update};
use crate::seqs::{first_index, lemma_first_index_found, lemma_first_index_none};
use crate::task::FacilityKind;

verus! {

/// Where a placeholder's value will come from.
#[derive(Clone, Debug)]
pub enum InDescriptor {
    InputSlot { descriptor: String },
    Template { descriptor: String },
    Unbound,
}

/// A format and the source of each placeholder.
#[derive(Clone, Debug)]
pub struct FormatFillPreview {
    pub format: String,
    pub placeholder_fill_map: Vec<(usize, InDescriptor)>,
}

/// A file the command will read or write.
#[derive(Clone, Debug)]
pub enum FileInfoPreview {
    ConstInput { from: InDescriptor, input_material_descriptor: String, path: String },
    DynamicInput { from: InDescriptor },
    ConstOutput { output_material_descriptor: String, path: String },
    DynamicOutput { from: InDescriptor, output_material_descriptor: String },
}

/// What a collector reads, by material.
#[derive(Clone, Debug)]
pub enum PreviewCollectFrom {
    FileOut { output_material_descriptor: String },
    Stdout,
    Stderr,
}

/// How a collector picks its result.
#[derive(Clone, Debug)]
pub enum PreviewCollectRule {
    Regex { pattern: String },
    BottomLines { count: usize },
    TopLines { count: usize },
}

/// Where a collected result goes.
#[derive(Clone, Debug)]
pub enum PreviewCollectTo {
    Text,
    File { path: String },
}

/// A collector in the preview.
#[derive(Clone, Debug)]
pub struct CollectPreview {
    pub from: PreviewCollectFrom,
    pub rule: PreviewCollectRule,
    pub to: PreviewCollectTo,
    pub optional: bool,
}

/// The command that a software package and a use case make together.
#[derive(Clone, Debug)]
pub struct CommandPreview {
    pub software_facility: FacilityKind,
    pub command_name: String,
    /// Arguments by sort, in sort order.
    pub argument_formats_sorts: Vec<(usize, FormatFillPreview)>,
    pub environment_formats: Vec<(String, FormatFillPreview)>,
    pub templates_kv_map: Vec<(String, Vec<(String, InDescriptor)>)>,
    pub std_in: InDescriptor,
    pub file_infos: Vec<FileInfoPreview>,
    pub collect_previews: Vec<CollectPreview>,
}

/// The software package's part of what is validated.
#[derive(Clone, Debug)]
pub struct SoftwareData {
    pub spec: SoftwareSpec,
    pub arguments: Vec<Argument>,
    pub environments: Vec<Environment>,
    pub filesome_inputs: Vec<FilesomeInput>,
    pub filesome_outputs: Vec<FilesomeOutput>,
}

/// The use case's part of what is validated.
#[derive(Clone, Debug)]
pub struct UsecaseData {
    pub spec: UsecaseSpec,
    pub collected_outs: Vec<CollectedOut>,
    pub template_file_infos: Vec<TemplateFileInfo>,
}

/// A software package and a use case to validate together.
#[derive(Clone, Debug)]
pub struct ValidateData {
    pub software_data: SoftwareData,
    pub usecase_data: UsecaseData,
}

/// Whether the sorts are exactly `0, 1, ..., k - 1` for their count `k`
/// (each sort once).
pub open spec fn sorts_form_range(sorts: Seq<usize>) -> bool {
    sorts.to_set() == Set::new(|i: usize| i < sorts.len())
}

/// Whether sort `s` occurs among the first `n` sorts.
pub open spec fn sort_present(sorts: Seq<usize>, s: usize) -> bool {
    exists|j: int| 0 <= j < sorts.len() && sorts[j] == s
}

/// Checks that the sorts of the argument table form the range `0..k`.
pub fn check_sorts(sorts: &Vec<usize>) -> (r: bool)
    ensures
        r == ((forall|j: int| 0 <= j < sorts@.len() ==> (#[trigger] sorts@[j]) < sorts@.len())
            && (forall|s: usize| s < sorts@.len() ==> #[trigger] sort_present(sorts@, s))),
{
    let n = sorts.len();
    let mut i: usize = 0;
    while i < n
        invariant
            n == sorts@.len(),
            i <= n,
            forall|j: int| 0 <= j < i ==> (#[trigger] sorts@[j]) < n,
        decreases n - i,
    {
        if sorts[i] >= n {
            assert(!(sorts@[i as int] < sorts@.len()));
            return false;
        }
        i += 1;
    }
    let mut s: usize = 0;
    while s < n
        invariant
            n == sorts@.len(),
            s <= n,
            forall|j: int| 0 <= j < n ==> (#[trigger] sorts@[j]) < n,
            forall|t: usize| t < s ==> #[trigger] sort_present(sorts@, t),
        decreases n - s,
    {
        let mut j: usize = 0;
        let mut found = false;
        while j < n && !found
            invariant
                n == sorts@.len(),
                j <= n,
                found ==> sort_present(sorts@, s),
                !found ==> forall|jj: int| 0 <= jj < j ==> sorts@[jj] != s,
            decreases n - j + if found { 0int } else { 1int },
        {
            if sorts[j] == s {
                found = true;
            } else {
                j += 1;
            }
        }
        if !found {
            assert(!sort_present(sorts@, s));
            return false;
        }
        s += 1;
    }
    true
}

/// Sort range: a table of `k` sorts, each below `k` and each of `0..k`
/// present, holds exactly the set `{0, ..., k - 1}`.
pub proof fn lemma_sorts_form_range(sorts: Seq<usize>)
    requires
        forall|j: int| 0 <= j < sorts.len() ==> (#[trigger] sorts[j]) < sorts.len(),
        forall|s: usize| s < sorts.len() ==> #[trigger] sort_present(sorts, s),
    ensures
        sorts_form_range(sorts),
{
    assert forall|s: usize| sorts.to_set().contains(s) <==> s < sorts.len() by {
        if s < sorts.len() {
            assert(sort_present(sorts, s));
            let j = choose|j: int| 0 <= j < sorts.len() && sorts[j] == s;
            assert(sorts.contains(s));
        }
        if sorts.to_set().contains(s) {
            assert(sorts.contains(s));
            let j = choose|j: int| 0 <= j < sorts.len() && sorts[j] == s;
            assert(sorts[j] < sorts.len());
        }
    }
    assert(sorts.to_set() =~= Set::new(|i: usize| i < sorts.len()));
}

/// Where a placeholder's value comes from, as a tag (0: unbound, 1: input
/// slot, 2: template) and a descriptor.
pub open spec fn source_view(d: InDescriptor) -> (int, Seq<char>) {
    match d {
        InDescriptor::InputSlot { descriptor } => (1, descriptor@),
        InDescriptor::Template { descriptor } => (2, descriptor@),
        InDescriptor::Unbound => (0, Seq::empty()),
    }
}

/// Placeholder sources, as text.
pub type SourcesView = Seq<(usize, (int, Seq<char>))>;

/// A format and its placeholder sources, as text.
pub open spec fn preview_fill_view(f: FormatFillPreview) -> (Seq<char>, SourcesView) {
    (f.format@, f.placeholder_fill_map@.map_values(|e: (usize, InDescriptor)| (e.0, source_view(e.1))))
}

/// The preview's argument table, as text.
pub open spec fn preview_args_view(v: Seq<(usize, FormatFillPreview)>) -> Seq<(usize, (Seq<char>, SourcesView))> {
    v.map_values(|e: (usize, FormatFillPreview)| (e.0, preview_fill_view(e.1)))
}

/// The preview's environment table, as text.
pub open spec fn preview_envs_view(v: Seq<(String, FormatFillPreview)>) -> Seq<(Seq<char>, (Seq<char>, SourcesView))> {
    v.map_values(|e: (String, FormatFillPreview)| (e.0@, preview_fill_view(e.1)))
}

/// One template's key sources, as text.
pub open spec fn preview_kv_view(v: Seq<(String, InDescriptor)>) -> Seq<(Seq<char>, (int, Seq<char>))> {
    v.map_values(|e: (String, InDescriptor)| (e.0@, source_view(e.1)))
}

/// The preview's template table, as text.
pub open spec fn preview_templates_view(v: Seq<(String, Vec<(String, InDescriptor)>)>) -> Seq<(String, Seq<(Seq<char>, (int, Seq<char>))>)> {
    v.map_values(|e: (String, Vec<(String, InDescriptor)>)| (e.0, preview_kv_view(e.1@)))
}

/// Entries whose key is `k`.
pub open spec fn key_eq<V>(k: usize) -> spec_fn((usize, V)) -> bool {
    |e: (usize, V)| e.0 == k
}

/// `s` with the entry for `k` set to `f` of its former value; a new key goes
/// last.
pub open spec fn upsert<V>(s: Seq<(usize, V)>, k: usize, f: spec_fn(Option<V>) -> V) -> Seq<(usize, V)> {
    let p = first_index(s, key_eq::<V>(k));
    if 0 <= p < s.len() {
        s.update(p, (k, f(Some(s[p].1))))
    } else {
        s.push((k, f(None)))
    }
}

/// The source of placeholder `k` set to `v`.
pub open spec fn set_source(v: (int, Seq<char>)) -> spec_fn(Option<(int, Seq<char>)>) -> (int, Seq<char>) {
    |o: Option<(int, Seq<char>)>| v
}

/// The update of one preview entry: anchor with `format` where new, then
/// apply `fill`.
pub open spec fn preview_fill_with(
    format: Seq<char>,
    fill: Option<(usize, (int, Seq<char>))>,
) -> spec_fn(Option<(Seq<char>, SourcesView)>) -> (Seq<char>, SourcesView) {
    |o: Option<(Seq<char>, SourcesView)>| {
        let base = match o {
            Some(b) => b,
            None => (format, Seq::empty()),
        };
        match fill {
            Some((k, v)) => (base.0, upsert(base.1, k, set_source(v))),
            None => base,
        }
    }
}

/// The update of one template entry of the preview: key `key` set to `v`.
pub open spec fn preview_key_with(
    key: Seq<char>,
    v: (int, Seq<char>),
) -> spec_fn(Option<Seq<(Seq<char>, (int, Seq<char>))>>) -> Seq<(Seq<char>, (int, Seq<char>))> {
    |o: Option<Seq<(Seq<char>, (int, Seq<char>))>>| str_update(
        match o {
            Some(kv) => kv,
            None => Seq::empty(),
        },
        key,
        |x: Option<(int, Seq<char>)>| v,
    )
}

/// An optional fill as text.
pub open spec fn preview_fill_opt(fill: Option<(usize, InDescriptor)>) -> Option<(usize, (int, Seq<char>))> {
    match fill {
        Some((k, v)) => Some((k, source_view(v))),
        None => None,
    }
}

/// The preview's working state, as text: arguments, environment, std-in
/// source and template keys.
pub type PreviewView = (
    Seq<(usize, (Seq<char>, SourcesView))>,
    Seq<(Seq<char>, (Seq<char>, SourcesView))>,
    (int, Seq<char>),
    Seq<(String, Seq<(Seq<char>, (int, Seq<char>))>)>,
);

/// The empty preview state.
pub open spec fn empty_preview() -> PreviewView {
    (Seq::empty(), Seq::empty(), (0, Seq::empty()), Seq::empty())
}

/// Anchors argument material `d` at sort `sort` and applies `fill`.
pub open spec fn pv_arg_step(st: PreviewView, sw: SoftwareData, d: String, sort: usize, fill: Option<(usize, (int, Seq<char>))>) -> Result<PreviewView, KernelError> {
    let i = first_index(sw.arguments@, argument_named(d@));
    if 0 <= i < sw.arguments@.len() {
        Ok((upsert(st.0, sort, preview_fill_with(sw.arguments@[i].value_format@, fill)), st.1, st.2, st.3))
    } else {
        Err(KernelError::NoSuchMaterial { descriptor: d })
    }
}

/// Anchors environment material `d` and applies `fill`.
pub open spec fn pv_env_step(st: PreviewView, sw: SoftwareData, d: String, fill: Option<(usize, (int, Seq<char>))>) -> Result<PreviewView, KernelError> {
    let i = first_index(sw.environments@, environment_named(d@));
    if 0 <= i < sw.environments@.len() {
        Ok((st.0, str_update(st.1, sw.environments@[i].key@, preview_fill_with(sw.environments@[i].value_format@, fill)), st.2, st.3))
    } else {
        Err(KernelError::NoSuchMaterial { descriptor: d })
    }
}

/// Template `desc` with its first `k` keys set to come from `src`.
pub open spec fn pv_keys_fold(t: Seq<(String, Seq<(Seq<char>, (int, Seq<char>))>)>, desc: String, keys: Seq<String>, src: (int, Seq<char>), k: int) -> Seq<(String, Seq<(Seq<char>, (int, Seq<char>))>)>
    decreases k,
{
    if k <= 0 {
        t
    } else {
        name_update(pv_keys_fold(t, desc, keys, src, k - 1), desc, preview_key_with(keys[k - 1]@, src))
    }
}

/// Whether input material `d` exists.
pub open spec fn has_input_material(sw: SoftwareData, d: Seq<char>) -> bool {
    let i = first_index(sw.filesome_inputs@, input_material_named(d));
    0 <= i < sw.filesome_inputs@.len()
}

/// Records where one text reference of an input slot takes its value from.
pub open spec fn pv_text_step(st: PreviewView, sw: SoftwareData, r: TextRef, src: (int, Seq<char>)) -> Result<PreviewView, KernelError> {
    match r {
        TextRef::ArgRef { descriptor, sort, placeholder_nth } => pv_arg_step(st, sw, descriptor, sort, Some((placeholder_nth, src))),
        TextRef::EnvRef { descriptor, placeholder_nth } => pv_env_step(st, sw, descriptor, Some((placeholder_nth, src))),
        TextRef::StdIn => Ok((st.0, st.1, src, st.3)),
        TextRef::TemplateRef { descriptor, ref_keys } => Ok((st.0, st.1, st.2, pv_keys_fold(st.3, descriptor, ref_keys@, src, ref_keys@.len() as int))),
    }
}

/// Records where one file reference of an input slot takes its value from.
pub open spec fn pv_file_step(st: PreviewView, sw: SoftwareData, r: FileRef, src: (int, Seq<char>)) -> Result<PreviewView, KernelError> {
    match r {
        FileRef::ArgRef { descriptor, sort, placeholder_nth } => pv_arg_step(st, sw, descriptor, sort, Some((placeholder_nth, src))),
        FileRef::EnvRef { descriptor, placeholder_nth } => pv_env_step(st, sw, descriptor, Some((placeholder_nth, src))),
        FileRef::StdIn => Ok((st.0, st.1, src, st.3)),
        FileRef::FileInputRef(d) => if has_input_material(sw, d@) {
            Ok(st)
        } else {
            Err(KernelError::NoSuchMaterial { descriptor: d })
        },
        FileRef::TemplateRef { descriptor, ref_keys } => Ok((st.0, st.1, st.2, pv_keys_fold(st.3, descriptor, ref_keys@, src, ref_keys@.len() as int))),
    }
}

/// Records the first `k` text references.
pub open spec fn pv_text_fold(st: PreviewView, sw: SoftwareData, refs: Seq<TextRef>, src: (int, Seq<char>), k: int) -> Result<PreviewView, KernelError>
    decreases k,
{
    if k <= 0 {
        Ok(st)
    } else {
        match pv_text_fold(st, sw, refs, src, k - 1) {
            Err(e) => Err(e),
            Ok(s2) => pv_text_step(s2, sw, refs[k - 1], src),
        }
    }
}

/// Records the first `k` file references.
pub open spec fn pv_file_fold(st: PreviewView, sw: SoftwareData, refs: Seq<FileRef>, src: (int, Seq<char>), k: int) -> Result<PreviewView, KernelError>
    decreases k,
{
    if k <= 0 {
        Ok(st)
    } else {
        match pv_file_fold(st, sw, refs, src, k - 1) {
            Err(e) => Err(e),
            Ok(s2) => pv_file_step(s2, sw, refs[k - 1], src),
        }
    }
}

/// Records the references of one use-case input slot.
pub open spec fn pv_slot_step(st: PreviewView, sw: SoftwareData, s: InputSlot) -> Result<PreviewView, KernelError> {
    match s {
        InputSlot::Text { descriptor, ref_materials, .. } => pv_text_fold(st, sw, ref_materials@, (1, descriptor@), ref_materials@.len() as int),
        InputSlot::File { descriptor, ref_materials, .. } => pv_file_fold(st, sw, ref_materials@, (1, descriptor@), ref_materials@.len() as int),
    }
}

/// Records the first `k` use-case input slots.
pub open spec fn pv_slots_fold(st: PreviewView, sw: SoftwareData, slots: Seq<InputSlot>, k: int) -> Result<PreviewView, KernelError>
    decreases k,
{
    if k <= 0 {
        Ok(st)
    } else {
        match pv_slots_fold(st, sw, slots, k - 1) {
            Err(e) => Err(e),
            Ok(s2) => pv_slot_step(s2, sw, slots[k - 1]),
        }
    }
}

/// Checks that an `as_file_name` reference names a material.
pub open spec fn name_ref_check(sw: SoftwareData, r: FileRef) -> Result<(), KernelError> {
    match r {
        FileRef::ArgRef { descriptor, .. } => if 0 <= first_index(sw.arguments@, argument_named(descriptor@)) < sw.arguments@.len() {
            Ok(())
        } else {
            Err(KernelError::NoSuchMaterial { descriptor })
        },
        FileRef::EnvRef { descriptor, .. } => if 0 <= first_index(sw.environments@, environment_named(descriptor@)) < sw.environments@.len() {
            Ok(())
        } else {
            Err(KernelError::NoSuchMaterial { descriptor })
        },
        FileRef::StdIn => Ok(()),
        FileRef::FileInputRef(d) => if has_input_material(sw, d@) {
            Ok(())
        } else {
            Err(KernelError::NoSuchMaterial { descriptor: d })
        },
        FileRef::TemplateRef { .. } => Err(KernelError::UnsupportedRefChain),
    }
}

/// Checks the first `k` references.
pub open spec fn name_refs_fold(sw: SoftwareData, refs: Seq<FileRef>, k: int) -> Result<(), KernelError>
    decreases k,
{
    if k <= 0 {
        Ok(())
    } else {
        match name_refs_fold(sw, refs, k - 1) {
            Err(e) => Err(e),
            Ok(()) => name_ref_check(sw, refs[k - 1]),
        }
    }
}

/// Checks the `as_file_name` references of the first `k` templates.
pub open spec fn names_fold(sw: SoftwareData, tfs: Seq<TemplateFile>, k: int) -> Result<(), KernelError>
    decreases k,
{
    if k <= 0 {
        Ok(())
    } else {
        match names_fold(sw, tfs, k - 1) {
            Err(e) => Err(e),
            Ok(()) => name_refs_fold(sw, tfs[k - 1].as_file_name@, tfs[k - 1].as_file_name@.len() as int),
        }
    }
}

/// Records one `as_content` reference of a template.
pub open spec fn pv_content_step(st: PreviewView, sw: SoftwareData, r: TextRef, src: (int, Seq<char>)) -> Result<PreviewView, KernelError> {
    match r {
        TextRef::TemplateRef { .. } => Err(KernelError::UnsupportedRefChain),
        _ => pv_text_step(st, sw, r, src),
    }
}

/// Records one `as_file_name` reference of a template.
pub open spec fn pv_name_step(st: PreviewView, sw: SoftwareData, r: FileRef, src: (int, Seq<char>)) -> Result<PreviewView, KernelError> {
    match r {
        FileRef::TemplateRef { .. } => Err(KernelError::UnsupportedRefChain),
        _ => pv_file_step(st, sw, r, src),
    }
}

/// Records the first `k` `as_content` references.
pub open spec fn pv_content_fold(st: PreviewView, sw: SoftwareData, refs: Seq<TextRef>, src: (int, Seq<char>), k: int) -> Result<PreviewView, KernelError>
    decreases k,
{
    if k <= 0 {
        Ok(st)
    } else {
        match pv_content_fold(st, sw, refs, src, k - 1) {
            Err(e) => Err(e),
            Ok(s2) => pv_content_step(s2, sw, refs[k - 1], src),
        }
    }
}

/// Records the first `k` `as_file_name` references.
pub open spec fn pv_name_fold(st: PreviewView, sw: SoftwareData, refs: Seq<FileRef>, src: (int, Seq<char>), k: int) -> Result<PreviewView, KernelError>
    decreases k,
{
    if k <= 0 {
        Ok(st)
    } else {
        match pv_name_fold(st, sw, refs, src, k - 1) {
            Err(e) => Err(e),
            Ok(s2) => pv_name_step(s2, sw, refs[k - 1], src),
        }
    }
}

/// Records where one referenced template's rendering goes.
pub open spec fn pv_template_step(st: PreviewView, sw: SoftwareData, ud: UsecaseData, desc: String) -> Result<PreviewView, KernelError> {
    let t = first_index(ud.spec.template_files@, template_named(desc@));
    let u = first_index(ud.template_file_infos@, template_info_named(desc@));
    if !(0 <= t < ud.spec.template_files@.len()) || !(0 <= u < ud.template_file_infos@.len()) {
        Err(KernelError::NoSuchMaterial { descriptor: desc })
    } else {
        let tf = ud.spec.template_files@[t];
        match pv_content_fold(st, sw, tf.as_content@, (2, desc@), tf.as_content@.len() as int) {
            Err(e) => Err(e),
            Ok(s2) => pv_name_fold(s2, sw, tf.as_file_name@, (2, desc@), tf.as_file_name@.len() as int),
        }
    }
}

/// Records the first `k` referenced templates.
pub open spec fn pv_templates_fold(st: PreviewView, sw: SoftwareData, ud: UsecaseData, t: Seq<(String, Seq<(Seq<char>, (int, Seq<char>))>)>, k: int) -> Result<PreviewView, KernelError>
    decreases k,
{
    if k <= 0 {
        Ok(st)
    } else {
        match pv_templates_fold(st, sw, ud, t, k - 1) {
            Err(e) => Err(e),
            Ok(s2) => pv_template_step(s2, sw, ud, t[k - 1].0),
        }
    }
}

/// The preview state after recording the input slots, checking the
/// templates' file-name references and recording the referenced templates.
pub open spec fn preview_assemble(data: ValidateData) -> Result<PreviewView, KernelError> {
    let sw = data.software_data;
    let ud = data.usecase_data;
    match pv_slots_fold(empty_preview(), sw, ud.spec.input_slots@, ud.spec.input_slots@.len() as int) {
        Err(e) => Err(e),
        Ok(b) => match names_fold(sw, ud.spec.template_files@, ud.spec.template_files@.len() as int) {
            Err(e) => Err(e),
            Ok(()) => pv_templates_fold((b.0, b.1, b.2, Seq::empty()), sw, ud, b.3, b.3.len() as int),
        },
    }
}

/// Whether `p` shows preview state `st`: the arguments in sort order, the
/// environment, and the std-in source.
pub open spec fn is_preview_of(p: CommandPreview, st: PreviewView) -> bool {
    &&& p.argument_formats_sorts@.len() == st.0.len()
    &&& forall|i: int|
        0 <= i < p.argument_formats_sorts@.len() ==> (#[trigger] p.argument_formats_sorts@[i]).0 == i
            && 0 <= first_index(st.0, key_eq::<(Seq<char>, SourcesView)>(i as usize)) < st.0.len()
            && preview_fill_view(p.argument_formats_sorts@[i].1) == st.0[first_index(st.0, key_eq::<(Seq<char>, SourcesView)>(i as usize))].1
    &&& preview_envs_view(p.environment_formats@) == st.1
    &&& source_view(p.std_in) == st.2
}

/// The sorts of an argument table.
pub open spec fn sorts_of<V>(t: Seq<(usize, V)>) -> Seq<usize> {
    t.map_values(|e: (usize, V)| e.0)
}

proof fn lemma_pv_text_fold_sticks(st: PreviewView, sw: SoftwareData, refs: Seq<TextRef>, src: (int, Seq<char>), k: int, n: int)
    requires
        0 <= k <= n,
        pv_text_fold(st, sw, refs, src, k) is Err,
    ensures
        pv_text_fold(st, sw, refs, src, n) == pv_text_fold(st, sw, refs, src, k),
    decreases n - k,
{
    if k < n {
        lemma_pv_text_fold_sticks(st, sw, refs, src, k, n - 1);
    }
}

proof fn lemma_pv_file_fold_sticks(st: PreviewView, sw: SoftwareData, refs: Seq<FileRef>, src: (int, Seq<char>), k: int, n: int)
    requires
        0 <= k <= n,
        pv_file_fold(st, sw, refs, src, k) is Err,
    ensures
        pv_file_fold(st, sw, refs, src, n) == pv_file_fold(st, sw, refs, src, k),
    decreases n - k,
{
    if k < n {
        lemma_pv_file_fold_sticks(st, sw, refs, src, k, n - 1);
    }
}

proof fn lemma_pv_slots_fold_sticks(st: PreviewView, sw: SoftwareData, slots: Seq<InputSlot>, k: int, n: int)
    requires
        0 <= k <= n,
        pv_slots_fold(st, sw, slots, k) is Err,
    ensures
        pv_slots_fold(st, sw, slots, n) == pv_slots_fold(st, sw, slots, k),
    decreases n - k,
{
    if k < n {
        lemma_pv_slots_fold_sticks(st, sw, slots, k, n - 1);
    }
}

proof fn lemma_name_refs_fold_sticks(sw: SoftwareData, refs: Seq<FileRef>, k: int, n: int)
    requires
        0 <= k <= n,
        name_refs_fold(sw, refs, k) is Err,
    ensures
        name_refs_fold(sw, refs, n) == name_refs_fold(sw, refs, k),
    decreases n - k,
{
    if k < n {
        lemma_name_refs_fold_sticks(sw, refs, k, n - 1);
    }
}

proof fn lemma_names_fold_sticks(sw: SoftwareData, tfs: Seq<TemplateFile>, k: int, n: int)
    requires
        0 <= k <= n,
        names_fold(sw, tfs, k) is Err,
    ensures
        names_fold(sw, tfs, n) == names_fold(sw, tfs, k),
    decreases n - k,
{
    if k < n {
        lemma_names_fold_sticks(sw, tfs, k, n - 1);
    }
}

proof fn lemma_pv_content_fold_sticks(st: PreviewView, sw: SoftwareData, refs: Seq<TextRef>, src: (int, Seq<char>), k: int, n: int)
    requires
        0 <= k <= n,
        pv_content_fold(st, sw, refs, src, k) is Err,
    ensures
        pv_content_fold(st, sw, refs, src, n) == pv_content_fold(st, sw, refs, src, k),
    decreases n - k,
{
    if k < n {
        lemma_pv_content_fold_sticks(st, sw, refs, src, k, n - 1);
    }
}

proof fn lemma_pv_name_fold_sticks(st: PreviewView, sw: SoftwareData, refs: Seq<FileRef>, src: (int, Seq<char>), k: int, n: int)
    requires
        0 <= k <= n,
        pv_name_fold(st, sw, refs, src, k) is Err,
    ensures
        pv_name_fold(st, sw, refs, src, n) == pv_name_fold(st, sw, refs, src, k),
    decreases n - k,
{
    if k < n {
        lemma_pv_name_fold_sticks(st, sw, refs, src, k, n - 1);
    }
}

proof fn lemma_pv_templates_fold_sticks(st: PreviewView, sw: SoftwareData, ud: UsecaseData, t: Seq<(String, Seq<(Seq<char>, (int, Seq<char>))>)>, k: int, n: int)
    requires
        0 <= k <= n,
        pv_templates_fold(st, sw, ud, t, k) is Err,
    ensures
        pv_templates_fold(st, sw, ud, t, n) == pv_templates_fold(st, sw, ud, t, k),
    decreases n - k,
{
    if k < n {
        lemma_pv_templates_fold_sticks(st, sw, ud, t, k, n - 1);
    }
}

/// Whether a collector's source resolves for the preview.
pub open spec fn pv_from_check(spec: UsecaseSpec, outputs: Seq<FilesomeOutput>, from: CollectFrom) -> Result<(), KernelError> {
    match from {
        CollectFrom::FileOut(fd) => {
            let j = first_index(spec.output_slots@, crate::compile::file_out_slot_named(fd@));
            if !(0 <= j < spec.output_slots@.len()) {
                Err(KernelError::NoSuchSlot)
            } else {
                match spec.output_slots@[j] {
                    OutputSlot::File { origin: FileOutOrigin::UsecaseOut(fo), .. } => {
                        let i = first_index(outputs, crate::compile::output_material_named(fo.file_out_material_descriptor@));
                        if !(0 <= i < outputs.len()) {
                            Err(KernelError::NoSuchMaterial { descriptor: fo.file_out_material_descriptor })
                        } else {
                            match fo.kind {
                                AppointedBy::Material => Ok(()),
                                AppointedBy::InputSlot { text_input_descriptor } => text_slot_check(spec, text_input_descriptor@),
                            }
                        }
                    },
                    OutputSlot::File { origin: FileOutOrigin::CollectedOut(_), .. } => Err(KernelError::UnsupportedRefChain),
                    _ => Ok(()),
                }
            }
        },
        _ => Ok(()),
    }
}

/// Use-case input slots with this descriptor.
pub open spec fn input_slot_named(d: Seq<char>) -> spec_fn(InputSlot) -> bool {
    |s: InputSlot| crate::compile::slot_descriptor(s) == d
}

/// Whether `d` names a text input slot of the use case.
pub open spec fn text_slot_check(spec: UsecaseSpec, d: Seq<char>) -> Result<(), KernelError> {
    let i = first_index(spec.input_slots@, input_slot_named(d));
    if !(0 <= i < spec.input_slots@.len()) {
        Err(KernelError::NoSuchSlot)
    } else if spec.input_slots@[i] is Text {
        Ok(())
    } else {
        Err(KernelError::MismatchedInputKind)
    }
}

/// Whether a collector step of the preview resolves.
pub open spec fn pv_collector_check(ud: UsecaseData, sw: SoftwareData, cd: String, to_file: bool) -> Result<(), KernelError> {
    let c = first_index(ud.collected_outs@, crate::compile::collector_named(cd@));
    if !(0 <= c < ud.collected_outs@.len()) {
        Err(KernelError::NoSuchCollector { descriptor: cd })
    } else {
        let co = ud.collected_outs@[c];
        match pv_from_check(ud.spec, sw.filesome_outputs@, co.from) {
            Err(e) => Err(e),
            Ok(()) => if to_file != (co.to is File) {
                Err(KernelError::MismatchedCollectTarget)
            } else {
                Ok(())
            },
        }
    }
}

/// Whether one use-case output slot resolves for the preview.
pub open spec fn pv_output_check(ud: UsecaseData, sw: SoftwareData, s: OutputSlot) -> Result<(), KernelError> {
    match s {
        OutputSlot::Text { collected_out_descriptor, .. } => pv_collector_check(ud, sw, collected_out_descriptor, false),
        OutputSlot::File { origin: FileOutOrigin::CollectedOut(cd), .. } => pv_collector_check(ud, sw, cd, true),
        OutputSlot::File { origin: FileOutOrigin::UsecaseOut(fo), .. } => {
            let i = first_index(sw.filesome_outputs@, crate::compile::output_material_named(fo.file_out_material_descriptor@));
            if 0 <= i < sw.filesome_outputs@.len() {
                Ok(())
            } else {
                Err(KernelError::NoSuchMaterial { descriptor: fo.file_out_material_descriptor })
            }
        },
    }
}

/// Whether the first `k` use-case output slots resolve for the preview.
pub open spec fn pv_outputs_fold(ud: UsecaseData, sw: SoftwareData, k: int) -> Result<(), KernelError>
    decreases k,
{
    if k <= 0 {
        Ok(())
    } else {
        match pv_outputs_fold(ud, sw, k - 1) {
            Err(e) => Err(e),
            Ok(()) => pv_output_check(ud, sw, ud.spec.output_slots@[k - 1]),
        }
    }
}

proof fn lemma_pv_outputs_fold_sticks(ud: UsecaseData, sw: SoftwareData, k: int, n: int)
    requires
        0 <= k <= n,
        pv_outputs_fold(ud, sw, k) is Err,
    ensures
        pv_outputs_fold(ud, sw, n) == pv_outputs_fold(ud, sw, k),
    decreases n - k,
{
    if k < n {
        lemma_pv_outputs_fold_sticks(ud, sw, k, n - 1);
    }
}

/// A copy of a source.
fn copy_source(d: &InDescriptor) -> (r: InDescriptor)
    ensures
        source_view(r) == source_view(*d),
{
    match d {
        InDescriptor::InputSlot { descriptor } => InDescriptor::InputSlot { descriptor: descriptor.clone() },
        InDescriptor::Template { descriptor } => InDescriptor::Template { descriptor: descriptor.clone() },
        InDescriptor::Unbound => InDescriptor::Unbound,
    }
}

/// The first position of `v` whose key is `k`, or its length.
fn position_of_sort<V>(v: &Vec<(usize, V)>, k: usize) -> (r: usize)
    ensures
        r <= v@.len(),
        r < v@.len() ==> r as int == first_index(v@, key_eq::<V>(k)) && v@[r as int].0 == k,
        r == v@.len() ==> first_index(v@, key_eq::<V>(k)) == -1,
{
    let mut i: usize = 0;
    while i < v.len()
        invariant
            i <= v@.len(),
            forall|j: int| 0 <= j < i ==> !key_eq::<V>(k)(#[trigger] v@[j]),
        decreases v@.len() - i,
    {
        if v[i].0 == k {
            proof {
                lemma_first_index_found(v@, key_eq::<V>(k), i as int);
            }
            return i;
        }
        i += 1;
    }
    proof {
        lemma_first_index_none(v@, key_eq::<V>(k));
    }
    i
}

/// Searching by key finds the same position in a table and in its view.
proof fn lemma_first_key_views<A, B>(v: Seq<(usize, A)>, w: Seq<(usize, B)>, k: usize)
    requires
        v.len() == w.len(),
        forall|i: int| 0 <= i < v.len() ==> (#[trigger] v[i]).0 == w[i].0,
    ensures
        first_index(v, key_eq::<A>(k)) == first_index(w, key_eq::<B>(k)),
    decreases v.len(),
{
    if v.len() > 0 {
        assert(v.drop_first().len() == w.drop_first().len());
        assert forall|i: int| 0 <= i < v.drop_first().len() implies (#[trigger] v.drop_first()[i]).0 == w.drop_first()[i].0 by {
            assert(v.drop_first()[i] == v[i + 1]);
            assert(w.drop_first()[i] == w[i + 1]);
        }
        lemma_first_key_views(v.drop_first(), w.drop_first(), k);
    }
}

/// Sets placeholder `k` to come from `v`.
fn set_preview_fill(fills: &mut Vec<(usize, InDescriptor)>, k: usize, v: InDescriptor)
    ensures
        final(fills)@.map_values(|e: (usize, InDescriptor)| (e.0, source_view(e.1))) == upsert(
            old(fills)@.map_values(|e: (usize, InDescriptor)| (e.0, source_view(e.1))),
            k,
            set_source(source_view(v)),
        ),
{
    let ghost before = fills@.map_values(|e: (usize, InDescriptor)| (e.0, source_view(e.1)));
    let ghost sv = source_view(v);
    let i = position_of_sort(fills, k);
    proof {
        lemma_first_key_views(fills@, before, k);
    }
    if i < fills.len() {
        fills.set(i, (k, v));
        assert(fills@.map_values(|e: (usize, InDescriptor)| (e.0, source_view(e.1))) =~= before.update(i as int, (k, sv)));
    } else {
        fills.push((k, v));
        assert(fills@.map_values(|e: (usize, InDescriptor)| (e.0, source_view(e.1))) =~= before.push((k, sv)));
    }
}

/// Anchors argument sort `sort` (with `format` where new) and sets a fill.
fn preview_arg(table: &mut Vec<(usize, FormatFillPreview)>, sort: usize, format: &String, fill: Option<(usize, InDescriptor)>)
    ensures
        preview_args_view(final(table)@) == upsert(preview_args_view(old(table)@), sort, preview_fill_with(format@, preview_fill_opt(fill))),
{
    let ghost before = preview_args_view(table@);
    let ghost f = preview_fill_with(format@, preview_fill_opt(fill));
    let i = position_of_sort(table, sort);
    proof {
        lemma_first_key_views(table@, before, sort);
    }
    let existed = i < table.len();
    let (key, mut entry) = if existed {
        table.remove(i)
    } else {
        (sort, FormatFillPreview { format: format.clone(), placeholder_fill_map: Vec::new() })
    };
    let ghost base = preview_fill_view(entry);
    proof {
        if !existed {
            assert(base.1 =~= Seq::<(usize, (int, Seq<char>))>::empty());
        }
    }
    if let Some((k, v)) = fill {
        set_preview_fill(&mut entry.placeholder_fill_map, k, v);
    }
    if existed {
        table.insert(i, (key, entry));
        assert(preview_args_view(table@) =~= before.update(i as int, (sort, f(Some(before[i as int].1)))));
    } else {
        table.push((key, entry));
        assert(preview_args_view(table@) =~= before.push((sort, f(None))));
    }
}

/// The first position of `v` whose key is `k`, or its length.
fn position_of_name<V>(v: &Vec<(String, V)>, k: &String) -> (r: usize)
    ensures
        r <= v@.len(),
        forall|j: int| 0 <= j < r ==> (#[trigger] v@[j]).0@ != k@,
        r < v@.len() ==> v@[r as int].0@ == k@,
{
    let mut i: usize = 0;
    while i < v.len()
        invariant
            i <= v@.len(),
            forall|j: int| 0 <= j < i ==> (#[trigger] v@[j]).0@ != k@,
        decreases v@.len() - i,
    {
        if v[i].0 == *k {
            return i;
        }
        i += 1;
    }
    i
}

/// Anchors environment variable `key` (with `format` where new) and sets a fill.
fn preview_env(table: &mut Vec<(String, FormatFillPreview)>, key: &String, format: &String, fill: Option<(usize, InDescriptor)>)
    ensures
        preview_envs_view(final(table)@) == str_update(preview_envs_view(old(table)@), key@, preview_fill_with(format@, preview_fill_opt(fill))),
{
    let ghost before = preview_envs_view(table@);
    let ghost f = preview_fill_with(format@, preview_fill_opt(fill));
    let i = position_of_name(table, key);
    proof {
        let q = key_is::<(Seq<char>, SourcesView)>(key@);
        assert forall|j: int| 0 <= j < i implies !q(#[trigger] before[j]) by {
            assert(before[j].0 == table@[j].0@);
        }
        if i < table@.len() {
            lemma_first_index_found(before, q, i as int);
        } else {
            lemma_first_index_none(before, q);
        }
    }
    let existed = i < table.len();
    let (name, mut entry) = if existed {
        table.remove(i)
    } else {
        (key.clone(), FormatFillPreview { format: format.clone(), placeholder_fill_map: Vec::new() })
    };
    let ghost base = preview_fill_view(entry);
    proof {
        if !existed {
            assert(base.1 =~= Seq::<(usize, (int, Seq<char>))>::empty());
        }
    }
    if let Some((k, v)) = fill {
        set_preview_fill(&mut entry.placeholder_fill_map, k, v);
    }
    if existed {
        table.insert(i, (name, entry));
        assert(preview_envs_view(table@) =~= before.update(i as int, (key@, f(Some(before[i as int].1)))));
    } else {
        table.push((name, entry));
        assert(preview_envs_view(table@) =~= before.push((key@, f(None))));
    }
}

/// Sets key `key` of template `desc` to come from `v`.
fn preview_template(table: &mut Vec<(String, Vec<(String, InDescriptor)>)>, desc: &String, key: &String, v: InDescriptor)
    ensures
        preview_templates_view(final(table)@) == name_update(preview_templates_view(old(table)@), *desc, preview_key_with(key@, source_view(v))),
{
    let ghost before = preview_templates_view(table@);
    let ghost sv = source_view(v);
    let i = position_of_name(table, desc);
    proof {
        let q = name_is::<Seq<(Seq<char>, (int, Seq<char>))>>(desc@);
        assert forall|j: int| 0 <= j < i implies !q(#[trigger] before[j]) by {
            assert(before[j].0 == table@[j].0);
        }
        if i < table@.len() {
            lemma_first_index_found(before, q, i as int);
        } else {
            lemma_first_index_none(before, q);
        }
    }
    let existed = i < table.len();
    let (d, mut kv) = if existed {
        table.remove(i)
    } else {
        (desc.clone(), Vec::new())
    };
    let ghost kv_before = preview_kv_view(kv@);
    proof {
        if !existed {
            assert(kv_before =~= Seq::empty());
        }
    }
    let j = position_of_name(&kv, key);
    proof {
        let pk = key_is::<(int, Seq<char>)>(key@);
        assert forall|jj: int| 0 <= jj < j implies !pk(#[trigger] kv_before[jj]) by {
            assert(kv_before[jj].0 == kv@[jj].0@);
        }
        if j < kv@.len() {
            lemma_first_index_found(kv_before, pk, j as int);
        } else {
            lemma_first_index_none(kv_before, pk);
        }
    }
    if j < kv.len() {
        kv.set(j, (key.clone(), v));
        assert(preview_kv_view(kv@) =~= kv_before.update(j as int, (key@, sv)));
    } else {
        kv.push((key.clone(), v));
        assert(preview_kv_view(kv@) =~= kv_before.push((key@, sv)));
    }
    if existed {
        table.insert(i, (d, kv));
        assert(d == before[i as int].0);
        assert(preview_templates_view(table@) =~= before.update(i as int, (d, preview_kv_view(kv@))));
    } else {
        table.push((d, kv));
        assert(preview_templates_view(table@) =~= before.push((*desc, preview_kv_view(kv@))));
    }
}

/// The source "input slot `d`".
fn from_slot(d: &String) -> (r: InDescriptor)
    ensures
        source_view(r) == (1int, d@),
{
    InDescriptor::InputSlot { descriptor: d.clone() }
}

/// The path of a file family.
fn kind_path(k: &FileKind) -> String {
    match k {
        FileKind::Normal(p) => p.clone(),
        FileKind::Batched(p) => p.clone(),
    }
}

/// The validator's working state.
struct Preview {
    args: Vec<(usize, FormatFillPreview)>,
    envs: Vec<(String, FormatFillPreview)>,
    std_in: InDescriptor,
    templates: Vec<(String, Vec<(String, InDescriptor)>)>,
    file_infos: Vec<FileInfoPreview>,
}

impl Preview {
    /// The working state as text.
    spec fn view(&self) -> PreviewView {
        (preview_args_view(self.args@), preview_envs_view(self.envs@), source_view(self.std_in), preview_templates_view(self.templates@))
    }

    /// Records a source for argument material `d`.
    fn arg(&mut self, sw: &SoftwareData, d: &String, sort: usize, fill: Option<(usize, InDescriptor)>) -> (r: Result<(), KernelError>)
        ensures
            r is Ok ==> Ok::<PreviewView, KernelError>(final(self).view()) == pv_arg_step(old(self).view(), *sw, *d, sort, preview_fill_opt(fill)),
            r matches Err(e) ==> pv_arg_step(old(self).view(), *sw, *d, sort, preview_fill_opt(fill)) == Err::<PreviewView, KernelError>(e),
    {
        let f = PackageValidateService::argument_format(&sw.arguments, d)?;
        preview_arg(&mut self.args, sort, &f.format, fill);
        Ok(())
    }

    /// Records a source for environment material `d`.
    fn env(&mut self, sw: &SoftwareData, d: &String, fill: Option<(usize, InDescriptor)>) -> (r: Result<(), KernelError>)
        ensures
            r is Ok ==> Ok::<PreviewView, KernelError>(final(self).view()) == pv_env_step(old(self).view(), *sw, *d, preview_fill_opt(fill)),
            r matches Err(e) ==> pv_env_step(old(self).view(), *sw, *d, preview_fill_opt(fill)) == Err::<PreviewView, KernelError>(e),
    {
        let (key, f) = PackageValidateService::environment_kv_format(&sw.environments, d)?;
        preview_env(&mut self.envs, &key, &f.format, fill);
        Ok(())
    }

    /// Records `src` for every key of template `desc`.
    fn keys(&mut self, desc: &String, keys: &Vec<String>, src: &InDescriptor)
        ensures
            final(self).view() == (old(self).view().0, old(self).view().1, old(self).view().2, pv_keys_fold(old(self).view().3, *desc, keys@, source_view(*src), keys@.len() as int)),
    {
        let mut i: usize = 0;
        while i < keys.len()
            invariant
                i <= keys@.len(),
                self.view() == (old(self).view().0, old(self).view().1, old(self).view().2, pv_keys_fold(old(self).view().3, *desc, keys@, source_view(*src), i as int)),
            decreases keys@.len() - i,
        {
            preview_template(&mut self.templates, desc, &keys[i], copy_source(src));
            i += 1;
        }
    }

    /// Records one text reference whose value comes from `src`.
    fn text(&mut self, sw: &SoftwareData, r: &TextRef, src: &InDescriptor) -> (res: Result<(), KernelError>)
        ensures
            res is Ok ==> Ok::<PreviewView, KernelError>(final(self).view()) == pv_text_step(old(self).view(), *sw, *r, source_view(*src)),
            res matches Err(e) ==> pv_text_step(old(self).view(), *sw, *r, source_view(*src)) == Err::<PreviewView, KernelError>(e),
    {
        match r {
            TextRef::ArgRef { descriptor, sort, placeholder_nth } => self.arg(sw, descriptor, *sort, Some((*placeholder_nth, copy_source(src)))),
            TextRef::EnvRef { descriptor, placeholder_nth } => self.env(sw, descriptor, Some((*placeholder_nth, copy_source(src)))),
            TextRef::StdIn => {
                self.std_in = copy_source(src);
                Ok(())
            },
            TextRef::TemplateRef { descriptor, ref_keys } => {
                self.keys(descriptor, ref_keys, src);
                Ok(())
            },
        }
    }

    /// Records one file reference whose value comes from `src`.
    fn file(&mut self, sw: &SoftwareData, r: &FileRef, src: &InDescriptor) -> (res: Result<(), KernelError>)
        ensures
            res is Ok ==> Ok::<PreviewView, KernelError>(final(self).view()) == pv_file_step(old(self).view(), *sw, *r, source_view(*src)),
            res matches Err(e) ==> pv_file_step(old(self).view(), *sw, *r, source_view(*src)) == Err::<PreviewView, KernelError>(e),
    {
        match r {
            FileRef::ArgRef { descriptor, sort, placeholder_nth } => self.arg(sw, descriptor, *sort, Some((*placeholder_nth, copy_source(src)))),
            FileRef::EnvRef { descriptor, placeholder_nth } => self.env(sw, descriptor, Some((*placeholder_nth, copy_source(src)))),
            FileRef::StdIn => {
                self.std_in = copy_source(src);
                Ok(())
            },
            FileRef::FileInputRef(fd) => {
                let path = input_material_path(&sw.filesome_inputs, fd)?;
                self.file_infos.push(FileInfoPreview::ConstInput { from: copy_source(src), input_material_descriptor: fd.clone(), path });
                Ok(())
            },
            FileRef::TemplateRef { descriptor, ref_keys } => {
                self.keys(descriptor, ref_keys, src);
                Ok(())
            },
        }
    }

    /// Records where one referenced template's rendering goes.
    fn template(&mut self, sw: &SoftwareData, ud: &UsecaseData, desc: &String) -> (res: Result<(), KernelError>)
        ensures
            res is Ok ==> Ok::<PreviewView, KernelError>(final(self).view()) == pv_template_step(old(self).view(), *sw, *ud, *desc),
            res matches Err(e) ==> pv_template_step(old(self).view(), *sw, *ud, *desc) == Err::<PreviewView, KernelError>(e),
    {
        let spec = &ud.spec;
        let ghost start = self.view();
        let mut t: usize = 0;
        while t < spec.template_files.len() && spec.template_files[t].descriptor != *desc
            invariant
                t <= spec.template_files@.len(),
                forall|j: int| 0 <= j < t ==> !template_named(desc@)(#[trigger] spec.template_files@[j]),
            decreases spec.template_files@.len() - t,
        {
            t += 1;
        }
        if t >= spec.template_files.len() {
            proof {
                lemma_first_index_none(spec.template_files@, template_named(desc@));
            }
            return Err(KernelError::NoSuchMaterial { descriptor: desc.clone() });
        }
        proof {
            lemma_first_index_found(spec.template_files@, template_named(desc@), t as int);
        }
        let mut u: usize = 0;
        while u < ud.template_file_infos.len() && ud.template_file_infos[u].descriptor != *desc
            invariant
                u <= ud.template_file_infos@.len(),
                forall|j: int| 0 <= j < u ==> !template_info_named(desc@)(#[trigger] ud.template_file_infos@[j]),
            decreases ud.template_file_infos@.len() - u,
        {
            u += 1;
        }
        if u >= ud.template_file_infos.len() {
            proof {
                lemma_first_index_none(ud.template_file_infos@, template_info_named(desc@));
            }
            return Err(KernelError::NoSuchMaterial { descriptor: desc.clone() });
        }
        proof {
            lemma_first_index_found(ud.template_file_infos@, template_info_named(desc@), u as int);
        }
        let using = &spec.template_files[t];
        let src = InDescriptor::Template { descriptor: desc.clone() };
        assert(source_view(src) == (2int, desc@));
        let mut k: usize = 0;
        while k < using.as_content.len()
            invariant
                start == old(self).view(),
                spec == ud.spec,
                t < spec.template_files@.len(),
                first_index(spec.template_files@, template_named(desc@)) == t,
                *using == spec.template_files@[t as int],
                0 <= first_index(ud.template_file_infos@, template_info_named(desc@)) < ud.template_file_infos@.len(),
                source_view(src) == (2int, desc@),
                k <= using.as_content@.len(),
                Ok::<PreviewView, KernelError>(self.view()) == pv_content_fold(start, *sw, using.as_content@, (2int, desc@), k as int),
            decreases using.as_content@.len() - k,
        {
            let r = &using.as_content[k];
            let step = match r {
                TextRef::TemplateRef { .. } => Err(KernelError::UnsupportedRefChain),
                _ => self.text(sw, r, &src),
            };
            match step {
                Ok(()) => {},
                Err(e) => {
                    proof {
                        lemma_pv_content_fold_sticks(start, *sw, using.as_content@, (2int, desc@), k + 1, using.as_content@.len() as int);
                    }
                    return Err(e);
                },
            }
            k += 1;
        }
        let ghost middle = self.view();
        let inline_only = using.as_file_name.len() == 0 || (using.as_file_name.len() == 1
            && matches!(using.as_file_name[0], FileRef::FileInputRef(_)));
        if !inline_only {
            self.file_infos.push(FileInfoPreview::DynamicInput { from: copy_source(&src) });
        }
        assert(self.view() == middle);
        let mut k: usize = 0;
        while k < using.as_file_name.len()
            invariant
                start == old(self).view(),
                spec == ud.spec,
                t < spec.template_files@.len(),
                first_index(spec.template_files@, template_named(desc@)) == t,
                *using == spec.template_files@[t as int],
                0 <= first_index(ud.template_file_infos@, template_info_named(desc@)) < ud.template_file_infos@.len(),
                source_view(src) == (2int, desc@),
                Ok::<PreviewView, KernelError>(middle) == pv_content_fold(start, *sw, using.as_content@, (2int, desc@), using.as_content@.len() as int),
                k <= using.as_file_name@.len(),
                Ok::<PreviewView, KernelError>(self.view()) == pv_name_fold(middle, *sw, using.as_file_name@, (2int, desc@), k as int),
            decreases using.as_file_name@.len() - k,
        {
            let r = &using.as_file_name[k];
            let step = match r {
                FileRef::TemplateRef { .. } => Err(KernelError::UnsupportedRefChain),
                _ => self.file(sw, r, &src),
            };
            match step {
                Ok(()) => {},
                Err(e) => {
                    proof {
                        lemma_pv_name_fold_sticks(middle, *sw, using.as_file_name@, (2int, desc@), k + 1, using.as_file_name@.len() as int);
                    }
                    return Err(e);
                },
            }
            k += 1;
        }
        Ok(())
    }
}

/// Checks that an `as_file_name` reference names a material.
fn check_name_ref(sw: &SoftwareData, r: &FileRef) -> (res: Result<(), KernelError>)
    ensures
        res == name_ref_check(*sw, *r),
{
    match r {
        FileRef::ArgRef { descriptor, .. } => {
            PackageValidateService::argument_format(&sw.arguments, descriptor)?;
            Ok(())
        },
        FileRef::EnvRef { descriptor, .. } => {
            PackageValidateService::environment_kv_format(&sw.environments, descriptor)?;
            Ok(())
        },
        FileRef::StdIn => Ok(()),
        FileRef::FileInputRef(d) => {
            input_material_path(&sw.filesome_inputs, d)?;
            Ok(())
        },
        FileRef::TemplateRef { .. } => Err(KernelError::UnsupportedRefChain),
    }
}

/// A copy of a preview format.
fn copy_preview_fill(f: &FormatFillPreview) -> (r: FormatFillPreview)
    ensures
        preview_fill_view(r) == preview_fill_view(*f),
{
    let mut fills: Vec<(usize, InDescriptor)> = Vec::new();
    let mut i: usize = 0;
    while i < f.placeholder_fill_map.len()
        invariant
            i <= f.placeholder_fill_map@.len(),
            fills@.len() == i,
            forall|j: int| 0 <= j < i ==> (#[trigger] fills@[j]).0 == f.placeholder_fill_map@[j].0 && source_view(fills@[j].1) == source_view(f.placeholder_fill_map@[j].1),
        decreases f.placeholder_fill_map@.len() - i,
    {
        fills.push((f.placeholder_fill_map[i].0, copy_source(&f.placeholder_fill_map[i].1)));
        i += 1;
    }
    let r = FormatFillPreview { format: f.format.clone(), placeholder_fill_map: fills };
    assert(preview_fill_view(r).1 =~= preview_fill_view(*f).1);
    r
}

/// Resolves one use-case output slot of the preview: a collector, or an
/// output file.
fn preview_output(ud: &UsecaseData, sw: &SoftwareData, slot: &OutputSlot) -> (r: Result<(Option<CollectPreview>, Option<FileInfoPreview>), KernelError>)
    ensures
        crate::compile::ok_unit(r) == pv_output_check(*ud, *sw, *slot),
{
    match slot {
        OutputSlot::Text { collected_out_descriptor, optional, .. } => {
            let c = find_collected(&ud.collected_outs, collected_out_descriptor)?;
            let from = preview_from(&ud.spec, &sw.filesome_outputs, &c.from)?;
            let to = match &c.to {
                CollectTo::Text => PreviewCollectTo::Text,
                _ => {
                    return Err(KernelError::MismatchedCollectTarget);
                },
            };
            Ok((Some(CollectPreview { from, rule: preview_rule(&c.collecting), to, optional: *optional }), None))
        },
        OutputSlot::File { origin, optional, .. } => match origin {
            FileOutOrigin::CollectedOut(cd) => {
                let c = find_collected(&ud.collected_outs, cd)?;
                let from = preview_from(&ud.spec, &sw.filesome_outputs, &c.from)?;
                let to = match &c.to {
                    CollectTo::File { path } => PreviewCollectTo::File { path: path.clone() },
                    _ => {
                        return Err(KernelError::MismatchedCollectTarget);
                    },
                };
                Ok((Some(CollectPreview { from, rule: preview_rule(&c.collecting), to, optional: *optional }), None))
            },
            FileOutOrigin::UsecaseOut(fo) => {
                let (md, path) = output_material_of(&sw.filesome_outputs, &fo.file_out_material_descriptor)?;
                let info = match &fo.kind {
                    AppointedBy::InputSlot { text_input_descriptor } => FileInfoPreview::DynamicOutput { from: from_slot(text_input_descriptor), output_material_descriptor: md },
                    AppointedBy::Material => FileInfoPreview::ConstOutput { output_material_descriptor: md, path },
                };
                Ok((None, Some(info)))
            },
        },
    }
}

/// A table that holds the sorts `0..k` holds each of them, in range.
proof fn lemma_range_is_checked(sorts: Seq<usize>)
    requires
        sorts_form_range(sorts),
    ensures
        forall|j: int| 0 <= j < sorts.len() ==> (#[trigger] sorts[j]) < sorts.len(),
        forall|s: usize| s < sorts.len() ==> #[trigger] sort_present(sorts, s),
{
    assert forall|j: int| 0 <= j < sorts.len() implies (#[trigger] sorts[j]) < sorts.len() by {
        assert(sorts.to_set().contains(sorts[j]));
    }
    assert forall|s: usize| s < sorts.len() implies #[trigger] sort_present(sorts, s) by {
        assert(Set::new(|i: usize| i < sorts.len()).contains(s));
        assert(sorts.to_set().contains(s));
        assert(sorts.contains(s));
    }
}

/// Validator of software packages against use cases.
pub struct PackageValidateService {}

/// Validation of a package pair.
pub trait IPackageValidateService {
    /// Checks a package pair and previews its command, or says what is wrong.
    fn package_validate(&self, validate_data: ValidateData) -> (r: Result<CommandPreview, KernelError>)
        ensures
            preview_assemble(validate_data) is Err ==> r == Err::<CommandPreview, KernelError>(preview_assemble(validate_data)->Err_0),
            preview_assemble(validate_data) is Ok ==> (pv_outputs_fold(validate_data.usecase_data, validate_data.software_data, validate_data.usecase_data.spec.output_slots@.len() as int) is Err
                ==> r == Err::<CommandPreview, KernelError>(pv_outputs_fold(validate_data.usecase_data, validate_data.software_data, validate_data.usecase_data.spec.output_slots@.len() as int)->Err_0)),
            preview_assemble(validate_data) matches Ok(st) ==> (pv_outputs_fold(validate_data.usecase_data, validate_data.software_data, validate_data.usecase_data.spec.output_slots@.len() as int) is Ok
                && !sorts_form_range(sorts_of(st.0)) ==> r == Err::<CommandPreview, KernelError>(KernelError::SortGap)),
            preview_assemble(validate_data) matches Ok(st) ==> (pv_outputs_fold(validate_data.usecase_data, validate_data.software_data, validate_data.usecase_data.spec.output_slots@.len() as int) is Ok
                && sorts_form_range(sorts_of(st.0)) ==> r is Ok),
            r matches Ok(p) ==> (preview_assemble(validate_data) matches Ok(st) && is_preview_of(p, st)),
            r matches Ok(p) ==> forall|i: int|
                0 <= i < p.argument_formats_sorts@.len() ==> (#[trigger] p.argument_formats_sorts@[i]).0 == i,
            r matches Ok(p) ==> p.command_name@ == validate_data.usecase_data.spec.command_file@
                && crate::compile::facility_matches(p.software_facility, validate_data.software_data.spec),
        ;
}

impl IPackageValidateService for PackageValidateService {
    fn package_validate(&self, validate_data: ValidateData) -> (r: Result<CommandPreview, KernelError>) {
        self.validate(validate_data)
    }
}

impl PackageValidateService {
    /// A validator.
    pub fn new() -> (r: PackageValidateService) {
        PackageValidateService {}
    }

    /// The format of argument material `descriptor`, with no sources yet.
    pub fn argument_format(argument_materials: &Vec<Argument>, descriptor: &String) -> (r: Result<FormatFillPreview, KernelError>)
        ensures
            ({
                let i = first_index(argument_materials@, argument_named(descriptor@));
                if 0 <= i < argument_materials@.len() {
                    r matches Ok(f) && f.format@ == argument_materials@[i].value_format@
                        && f.placeholder_fill_map@.len() == 0
                } else {
                    r == Err::<FormatFillPreview, KernelError>(KernelError::NoSuchMaterial { descriptor: *descriptor })
                }
            }),
    {
        match crate::compile::SoftwareComputingUsecaseService::argument_format(argument_materials, descriptor) {
            Ok(f) => Ok(FormatFillPreview { format: f.format, placeholder_fill_map: Vec::new() }),
            Err(e) => Err(e),
        }
    }

    /// The key and format of environment material `descriptor`, with no
    /// sources yet.
    pub fn environment_kv_format(environment_materials: &Vec<Environment>, descriptor: &String) -> (r: Result<(String, FormatFillPreview), KernelError>)
        ensures
            ({
                let i = first_index(environment_materials@, environment_named(descriptor@));
                if 0 <= i < environment_materials@.len() {
                    r matches Ok((k, f)) && k@ == environment_materials@[i].key@
                        && f.format@ == environment_materials@[i].value_format@
                        && f.placeholder_fill_map@.len() == 0
                } else {
                    r == Err::<(String, FormatFillPreview), KernelError>(KernelError::NoSuchMaterial { descriptor: *descriptor })
                }
            }),
    {
        match crate::compile::SoftwareComputingUsecaseService::environment_kv_format(environment_materials, descriptor) {
            Ok((k, f)) => Ok((k, FormatFillPreview { format: f.format, placeholder_fill_map: Vec::new() })),
            Err(e) => Err(e),
        }
    }

    /// Checks a package pair and previews its command: where each argument,
    /// environment variable, template key and std-in takes its value from,
    /// which files are read and written, and what is collected. On success
    /// the argument table holds sorts `0, 1, ..., k - 1` in order; a table
    /// whose sorts do not form that range is refused.
    pub fn validate(&self, validate_data: ValidateData) -> (r: Result<CommandPreview, KernelError>)
        ensures
            preview_assemble(validate_data) is Err ==> r == Err::<CommandPreview, KernelError>(preview_assemble(validate_data)->Err_0),
            preview_assemble(validate_data) is Ok ==> (pv_outputs_fold(validate_data.usecase_data, validate_data.software_data, validate_data.usecase_data.spec.output_slots@.len() as int) is Err
                ==> r == Err::<CommandPreview, KernelError>(pv_outputs_fold(validate_data.usecase_data, validate_data.software_data, validate_data.usecase_data.spec.output_slots@.len() as int)->Err_0)),
            preview_assemble(validate_data) matches Ok(st) ==> (pv_outputs_fold(validate_data.usecase_data, validate_data.software_data, validate_data.usecase_data.spec.output_slots@.len() as int) is Ok
                && !sorts_form_range(sorts_of(st.0)) ==> r == Err::<CommandPreview, KernelError>(KernelError::SortGap)),
            preview_assemble(validate_data) matches Ok(st) ==> (pv_outputs_fold(validate_data.usecase_data, validate_data.software_data, validate_data.usecase_data.spec.output_slots@.len() as int) is Ok
                && sorts_form_range(sorts_of(st.0)) ==> r is Ok),
            r matches Ok(p) ==> (preview_assemble(validate_data) matches Ok(st) && is_preview_of(p, st)),
            r matches Ok(p) ==> forall|i: int|
                0 <= i < p.argument_formats_sorts@.len() ==> (#[trigger] p.argument_formats_sorts@[i]).0 == i,
            r matches Ok(p) ==> p.command_name@ == validate_data.usecase_data.spec.command_file@
                && crate::compile::facility_matches(p.software_facility, validate_data.software_data.spec),
    {
        let ghost data = validate_data;
        let ValidateData { software_data, usecase_data } = validate_data;
        let sw = software_data;
        let ud = usecase_data;
        let spec = &ud.spec;
        let mut work = Preview {
            args: Vec::new(),
            envs: Vec::new(),
            std_in: InDescriptor::Unbound,
            templates: Vec::new(),
            file_infos: Vec::new(),
        };
        assert(work.view() =~= empty_preview());
        let mut collect_previews: Vec<CollectPreview> = Vec::new();

        // Where each input slot's references take their values from.
        let mut i: usize = 0;
        while i < spec.input_slots.len()
            invariant
                data == validate_data,
                sw == data.software_data,
                ud == data.usecase_data,
                spec == ud.spec,
                i <= spec.input_slots@.len(),
                Ok::<PreviewView, KernelError>(work.view()) == pv_slots_fold(empty_preview(), sw, spec.input_slots@, i as int),
            decreases spec.input_slots@.len() - i,
        {
            let ghost start = work.view();
            match &spec.input_slots[i] {
                InputSlot::Text { descriptor: slot_d, ref_materials, .. } => {
                    let src = from_slot(slot_d);
                    let mut k: usize = 0;
                    while k < ref_materials.len()
                        invariant
                            data == validate_data,
                sw == data.software_data,
                            ud == data.usecase_data,
                            spec == ud.spec,
                            i < spec.input_slots@.len(),
                            Ok::<PreviewView, KernelError>(start) == pv_slots_fold(empty_preview(), sw, spec.input_slots@, i as int),
                            spec.input_slots@[i as int] matches InputSlot::Text { descriptor: d2, ref_materials: r2, .. } && d2 == *slot_d && r2 == *ref_materials,
                            source_view(src) == (1int, slot_d@),
                            k <= ref_materials@.len(),
                            Ok::<PreviewView, KernelError>(work.view()) == pv_text_fold(start, sw, ref_materials@, (1int, slot_d@), k as int),
                        decreases ref_materials@.len() - k,
                    {
                        match work.text(&sw, &ref_materials[k], &src) {
                            Ok(()) => {},
                            Err(e) => {
                                proof {
                                    lemma_pv_text_fold_sticks(start, sw, ref_materials@, (1int, slot_d@), k + 1, ref_materials@.len() as int);
                                    lemma_pv_slots_fold_sticks(empty_preview(), sw, spec.input_slots@, i + 1, spec.input_slots@.len() as int);
                                }
                                return Err(e);
                            },
                        }
                        k += 1;
                    }
                },
                InputSlot::File { descriptor: slot_d, ref_materials, .. } => {
                    let src = from_slot(slot_d);
                    let mut k: usize = 0;
                    while k < ref_materials.len()
                        invariant
                            data == validate_data,
                sw == data.software_data,
                            ud == data.usecase_data,
                            spec == ud.spec,
                            i < spec.input_slots@.len(),
                            Ok::<PreviewView, KernelError>(start) == pv_slots_fold(empty_preview(), sw, spec.input_slots@, i as int),
                            spec.input_slots@[i as int] matches InputSlot::File { descriptor: d2, ref_materials: r2, .. } && d2 == *slot_d && r2 == *ref_materials,
                            source_view(src) == (1int, slot_d@),
                            k <= ref_materials@.len(),
                            Ok::<PreviewView, KernelError>(work.view()) == pv_file_fold(start, sw, ref_materials@, (1int, slot_d@), k as int),
                        decreases ref_materials@.len() - k,
                    {
                        match work.file(&sw, &ref_materials[k], &src) {
                            Ok(()) => {},
                            Err(e) => {
                                proof {
                                    lemma_pv_file_fold_sticks(start, sw, ref_materials@, (1int, slot_d@), k + 1, ref_materials@.len() as int);
                                    lemma_pv_slots_fold_sticks(empty_preview(), sw, spec.input_slots@, i + 1, spec.input_slots@.len() as int);
                                }
                                return Err(e);
                            },
                        }
                        k += 1;
                    }
                },
            }
            i += 1;
        }
        let ghost after_slots = work.view();

        // Every `as_file_name` reference of every template names a material.
        let mut t: usize = 0;
        while t < spec.template_files.len()
            invariant
                data == validate_data,
                sw == data.software_data,
                ud == data.usecase_data,
                spec == ud.spec,
                t <= spec.template_files@.len(),
                work.view() == after_slots,
                Ok::<PreviewView, KernelError>(after_slots) == pv_slots_fold(empty_preview(), sw, spec.input_slots@, spec.input_slots@.len() as int),
                names_fold(sw, spec.template_files@, t as int) == Ok::<(), KernelError>(()),
            decreases spec.template_files@.len() - t,
        {
            let refs = &spec.template_files[t].as_file_name;
            let mut k: usize = 0;
            while k < refs.len()
                invariant
                    data == validate_data,
                sw == data.software_data,
                    ud == data.usecase_data,
                    spec == ud.spec,
                    t < spec.template_files@.len(),
                    *refs == spec.template_files@[t as int].as_file_name,
                    Ok::<PreviewView, KernelError>(after_slots) == pv_slots_fold(empty_preview(), sw, spec.input_slots@, spec.input_slots@.len() as int),
                    names_fold(sw, spec.template_files@, t as int) == Ok::<(), KernelError>(()),
                    k <= refs@.len(),
                    name_refs_fold(sw, refs@, k as int) == Ok::<(), KernelError>(()),
                decreases refs@.len() - k,
            {
                match check_name_ref(&sw, &refs[k]) {
                    Ok(()) => {},
                    Err(e) => {
                        proof {
                            lemma_name_refs_fold_sticks(sw, refs@, k + 1, refs@.len() as int);
                            lemma_names_fold_sticks(sw, spec.template_files@, t + 1, spec.template_files@.len() as int);
                        }
                        return Err(e);
                    },
                }
                k += 1;
            }
            t += 1;
        }

        // Where each referenced template's rendering goes.
        let Preview { args, envs, std_in, templates, file_infos } = work;
        let mut work = Preview { args, envs, std_in, templates: Vec::new(), file_infos };
        let ghost pass_c = work.view();
        assert(pass_c =~= (after_slots.0, after_slots.1, after_slots.2, Seq::empty()));
        let ghost tv = preview_templates_view(templates@);
        let mut i: usize = 0;
        while i < templates.len()
            invariant
                data == validate_data,
                sw == data.software_data,
                ud == data.usecase_data,
                spec == ud.spec,
                i <= templates@.len(),
                tv == preview_templates_view(templates@),
                tv == after_slots.3,
                pass_c == (after_slots.0, after_slots.1, after_slots.2, Seq::<(String, Seq<(Seq<char>, (int, Seq<char>))>)>::empty()),
                Ok::<PreviewView, KernelError>(after_slots) == pv_slots_fold(empty_preview(), sw, spec.input_slots@, spec.input_slots@.len() as int),
                names_fold(sw, spec.template_files@, spec.template_files@.len() as int) == Ok::<(), KernelError>(()),
                Ok::<PreviewView, KernelError>(work.view()) == pv_templates_fold(pass_c, sw, ud, tv, i as int),
            decreases templates@.len() - i,
        {
            assert(tv[i as int].0 == templates@[i as int].0);
            match work.template(&sw, &ud, &templates[i].0) {
                Ok(()) => {},
                Err(e) => {
                    proof {
                        lemma_pv_templates_fold_sticks(pass_c, sw, ud, tv, i + 1, tv.len() as int);
                        assert(preview_assemble(data) == pv_templates_fold(pass_c, sw, ud, tv, tv.len() as int));
                    }
                    return Err(e);
                },
            }
            i += 1;
        }
        let ghost final_view = work.view();
        assert(preview_assemble(data) == Ok::<PreviewView, KernelError>(final_view));

        // Every output slot.
        let mut i: usize = 0;
        while i < spec.output_slots.len()
            invariant
                data == validate_data,
                sw == data.software_data,
                ud == data.usecase_data,
                spec == ud.spec,
                i <= spec.output_slots@.len(),
                work.view() == final_view,
                preview_assemble(data) == Ok::<PreviewView, KernelError>(final_view),
                pv_outputs_fold(ud, sw, i as int) == Ok::<(), KernelError>(()),
            decreases spec.output_slots@.len() - i,
        {
            match preview_output(&ud, &sw, &spec.output_slots[i]) {
                Err(e) => {
                    proof {
                        lemma_pv_outputs_fold_sticks(ud, sw, i + 1, spec.output_slots@.len() as int);
                    }
                    return Err(e);
                },
                Ok((c, f)) => {
                    if let Some(c) = c {
                        collect_previews.push(c);
                    }
                    if let Some(f) = f {
                        work.file_infos.push(f);
                    }
                },
            }
            i += 1;
        }

        // Argument sorts must form 0, 1, ..., k - 1; the table is given in sort order.
        let mut sorts: Vec<usize> = Vec::new();
        let mut i: usize = 0;
        while i < work.args.len()
            invariant
                i <= work.args@.len(),
                sorts@ == sorts_of(preview_args_view(work.args@)).subrange(0, i as int),
            decreases work.args@.len() - i,
        {
            sorts.push(work.args[i].0);
            assert(sorts@ =~= sorts_of(preview_args_view(work.args@)).subrange(0, i + 1));
            i += 1;
        }
        assert(sorts@ =~= sorts_of(final_view.0));
        if !check_sorts(&sorts) {
            proof {
                if sorts_form_range(sorts@) {
                    lemma_range_is_checked(sorts@);
                }
            }
            return Err(KernelError::SortGap);
        }
        proof {
            lemma_sorts_form_range(sorts@);
        }
        let mut ordered: Vec<(usize, FormatFillPreview)> = Vec::new();
        let mut s: usize = 0;
        while s < work.args.len()
            invariant
                data == validate_data,
                preview_assemble(data) == Ok::<PreviewView, KernelError>(final_view),
                work.view() == final_view,
                sorts@ == sorts_of(final_view.0),
                forall|s2: usize| s2 < sorts@.len() ==> #[trigger] sort_present(sorts@, s2),
                s <= work.args@.len(),
                ordered@.len() == s,
                forall|j: int| 0 <= j < s ==> (#[trigger] ordered@[j]).0 == j && 0 <= first_index(final_view.0, key_eq::<(Seq<char>, SourcesView)>(j as usize)) < final_view.0.len()
                    && preview_fill_view(ordered@[j].1) == final_view.0[first_index(final_view.0, key_eq::<(Seq<char>, SourcesView)>(j as usize))].1,
            decreases work.args@.len() - s,
        {
            let j = position_of_sort(&work.args, s);
            proof {
                lemma_first_key_views(work.args@, final_view.0, s);
            }
            if j == work.args.len() {
                proof {
                    assert(sort_present(sorts@, s));
                    let jj = choose|jj: int| 0 <= jj < sorts@.len() && sorts@[jj] == s;
                    crate::seqs::lemma_first_index_range(work.args@, key_eq::<FormatFillPreview>(s));
                    assert(work.args@[jj].0 == sorts@[jj]);
                    assert(key_eq::<FormatFillPreview>(s)(work.args@[jj]));
                }
                return Err(KernelError::SortGap);
            }
            ordered.push((s, copy_preview_fill(&work.args[j].1)));
            s += 1;
        }
        Ok(CommandPreview {
            software_facility: facility_of(&sw.spec),
            command_name: spec.command_file.clone(),
            argument_formats_sorts: ordered,
            environment_formats: work.envs,
            templates_kv_map: templates,
            std_in: work.std_in,
            file_infos: work.file_infos,
            collect_previews,
        })
    }
}

/// The path of input material `d`.
fn input_material_path(materials: &Vec<FilesomeInput>, d: &String) -> (r: Result<String, KernelError>)
    ensures
        r is Ok <==> 0 <= first_index(materials@, input_material_named(d@)) < materials@.len(),
        r matches Err(e) ==> e == (KernelError::NoSuchMaterial { descriptor: *d }),
{
    let mut i: usize = 0;
    while i < materials.len()
        invariant
            i <= materials@.len(),
            forall|j: int| 0 <= j < i ==> !input_material_named(d@)(#[trigger] materials@[j]),
        decreases materials@.len() - i,
    {
        if materials[i].descriptor == *d {
            proof {
                lemma_first_index_found(materials@, input_material_named(d@), i as int);
            }
            return Ok(kind_path(&materials[i].file_kind));
        }
        i += 1;
    }
    proof {
        lemma_first_index_none(materials@, input_material_named(d@));
    }
    Err(KernelError::NoSuchMaterial { descriptor: d.clone() })
}

/// The descriptor and path of output material `d`.
fn output_material_of(materials: &Vec<FilesomeOutput>, d: &String) -> (r: Result<(String, String), KernelError>)
    ensures
        r is Ok <==> 0 <= first_index(materials@, crate::compile::output_material_named(d@)) < materials@.len(),
        r matches Err(e) ==> e == (KernelError::NoSuchMaterial { descriptor: *d }),
{
    let mut i: usize = 0;
    while i < materials.len()
        invariant
            i <= materials@.len(),
            forall|j: int| 0 <= j < i ==> !crate::compile::output_material_named(d@)(#[trigger] materials@[j]),
        decreases materials@.len() - i,
    {
        if materials[i].descriptor == *d {
            proof {
                lemma_first_index_found(materials@, crate::compile::output_material_named(d@), i as int);
            }
            return Ok((materials[i].descriptor.clone(), kind_path(&materials[i].file_kind)));
        }
        i += 1;
    }
    proof {
        lemma_first_index_none(materials@, crate::compile::output_material_named(d@));
    }
    Err(KernelError::NoSuchMaterial { descriptor: d.clone() })
}

/// The collector with descriptor `d`.
fn find_collected<'a>(outs: &'a Vec<CollectedOut>, d: &String) -> (r: Result<&'a CollectedOut, KernelError>)
    ensures
        r is Ok <==> 0 <= first_index(outs@, crate::compile::collector_named(d@)) < outs@.len(),
        r matches Ok(c) ==> *c == outs@[first_index(outs@, crate::compile::collector_named(d@))],
        r matches Err(e) ==> e == (KernelError::NoSuchCollector { descriptor: *d }),
{
    let mut i: usize = 0;
    while i < outs.len()
        invariant
            i <= outs@.len(),
            forall|j: int| 0 <= j < i ==> !crate::compile::collector_named(d@)(#[trigger] outs@[j]),
        decreases outs@.len() - i,
    {
        if outs[i].descriptor == *d {
            proof {
                lemma_first_index_found(outs@, crate::compile::collector_named(d@), i as int);
            }
            return Ok(&outs[i]);
        }
        i += 1;
    }
    proof {
        lemma_first_index_none(outs@, crate::compile::collector_named(d@));
    }
    Err(KernelError::NoSuchCollector { descriptor: d.clone() })
}

/// The preview of a collect rule.
fn preview_rule(r: &CollectRule) -> PreviewCollectRule {
    match r {
        CollectRule::Regex(p) => PreviewCollectRule::Regex { pattern: p.clone() },
        CollectRule::BottomLines(n) => PreviewCollectRule::BottomLines { count: *n },
        CollectRule::TopLines(n) => PreviewCollectRule::TopLines { count: *n },
    }
}

/// What a collector reads, by material: a file output must be a use-case
/// output whose path, if appointed by an input slot, comes from a text slot.
fn preview_from(spec: &UsecaseSpec, outputs: &Vec<FilesomeOutput>, from: &CollectFrom) -> (r: Result<PreviewCollectFrom, KernelError>)
    ensures
        crate::compile::ok_unit(r) == pv_from_check(*spec, outputs@, *from),
{
    match from {
        CollectFrom::Stdout => Ok(PreviewCollectFrom::Stdout),
        CollectFrom::Stderr => Ok(PreviewCollectFrom::Stderr),
        CollectFrom::FileOut(fd) => {
            let mut i: usize = 0;
            while i < spec.output_slots.len()
                invariant
                    i <= spec.output_slots@.len(),
                    *from == CollectFrom::FileOut(*fd),
                    forall|j: int| 0 <= j < i ==> !crate::compile::file_out_slot_named(fd@)(#[trigger] spec.output_slots@[j]),
                decreases spec.output_slots@.len() - i,
            {
                if let OutputSlot::File { descriptor, origin, .. } = &spec.output_slots[i] {
                    if *descriptor == *fd {
                        proof {
                            lemma_first_index_found(spec.output_slots@, crate::compile::file_out_slot_named(fd@), i as int);
                        }
                        return match origin {
                            FileOutOrigin::CollectedOut(_) => Err(KernelError::UnsupportedRefChain),
                            FileOutOrigin::UsecaseOut(fo) => {
                                let (md, _) = output_material_of(outputs, &fo.file_out_material_descriptor)?;
                                if let AppointedBy::InputSlot { text_input_descriptor } = &fo.kind {
                                    check_text_slot(spec, text_input_descriptor)?;
                                }
                                Ok(PreviewCollectFrom::FileOut { output_material_descriptor: md })
                            },
                        };
                    }
                }
                i += 1;
            }
            proof {
                lemma_first_index_none(spec.output_slots@, crate::compile::file_out_slot_named(fd@));
            }
            Err(KernelError::NoSuchSlot)
        },
    }
}

/// Checks that `d` names a text input slot of the use case.
fn check_text_slot(spec: &UsecaseSpec, d: &String) -> (r: Result<(), KernelError>)
    ensures
        r == text_slot_check(*spec, d@),
{
    let mut i: usize = 0;
    while i < spec.input_slots.len()
        invariant
            i <= spec.input_slots@.len(),
            forall|j: int| 0 <= j < i ==> !input_slot_named(d@)(#[trigger] spec.input_slots@[j]),
        decreases spec.input_slots@.len() - i,
    {
        match &spec.input_slots[i] {
            InputSlot::Text { descriptor, .. } => {
                if *descriptor == *d {
                    proof {
                        lemma_first_index_found(spec.input_slots@, input_slot_named(d@), i as int);
                    }
                    return Ok(());
                }
            },
            InputSlot::File { descriptor, .. } => {
                if *descriptor == *d {
                    proof {
                        lemma_first_index_found(spec.input_slots@, input_slot_named(d@), i as int);
                    }
                    return Err(KernelError::MismatchedInputKind);
                }
            },
        }
        i += 1;
    }
    proof {
        lemma_first_index_none(spec.input_slots@, input_slot_named(d@));
    }
    Err(KernelError::NoSuchSlot)
}

} // verus!
