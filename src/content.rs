//! What a node's input slot holds, as text and as input files.
use vstd::prelude::*;
use vstd::string::StringExecFns;
use crate::error::KernelError;
use crate::model::{NodeInputSlotKind, NodeSpec};
use crate::slots::in_named;
use crate::seqs::{first_index, lemma_first_index_found, lemma_first_index_none, lemma_first_index_range};
use crate::task::{FileInfo, InFileForm};

verus! {

/// The content bound on one input slot.
#[derive(Clone, Debug)]
pub struct InContent {
    /// The slot's values joined by single spaces.
    pub literal: String,
    /// The input files that the slot brings.
    pub infiles: Vec<FileInfo>,
}

/// `parts` joined by single spaces.
pub open spec fn join_spaced(parts: Seq<Seq<char>>) -> Seq<char>
    decreases parts.len(),
{
    if parts.len() == 0 {
        Seq::empty()
    } else if parts.len() == 1 {
        parts[0]
    } else {
        join_spaced(parts.drop_last()) + seq![' '] + parts.last()
    }
}

/// Stored texts with this id.
pub open spec fn text_with_id(id: u128) -> spec_fn((u128, String)) -> bool {
    |e: (u128, String)| e.0 == id
}

/// The stored text of `id`, if any.
pub open spec fn text_of(texts: Seq<(u128, String)>, id: u128) -> Option<Seq<char>> {
    let i = first_index(texts, text_with_id(id));
    if 0 <= i < texts.len() {
        Some(texts[i].1@)
    } else {
        None
    }
}

/// Looks up the stored text of `id`.
pub fn lookup_text(texts: &Vec<(u128, String)>, id: u128) -> (r: Result<String, KernelError>)
    ensures
        text_of(texts@, id) is None <==> r is Err,
        r matches Ok(s) ==> text_of(texts@, id) == Some(s@),
        r matches Err(e) ==> e == KernelError::MissingText,
{
    proof {
        lemma_first_index_range(texts@, text_with_id(id));
    }
    let mut i: usize = 0;
    while i < texts.len()
        invariant
            i <= texts@.len(),
            forall|j: int| 0 <= j < i ==> !text_with_id(id)(#[trigger] texts@[j]),
        decreases texts@.len() - i,
    {
        if texts[i].0 == id {
            proof {
                lemma_first_index_found(texts@, text_with_id(id), i as int);
            }
            return Ok(texts[i].1.clone());
        }
        i += 1;
    }
    proof {
        lemma_first_index_none(texts@, text_with_id(id));
    }
    Err(KernelError::MissingText)
}

/// Whether every id has a stored text.
pub open spec fn all_stored(texts: Seq<(u128, String)>, ids: Seq<u128>) -> bool {
    forall|k: int| 0 <= k < ids.len() ==> (text_of(texts, #[trigger] ids[k]) is Some)
}

/// The stored texts of `ids`, in order.
pub open spec fn texts_of(texts: Seq<(u128, String)>, ids: Seq<u128>) -> Seq<Seq<char>> {
    ids.map_values(|id: u128| text_of(texts, id)->Some_0)
}

/// The name under which an input file is placed.
pub open spec fn effective_name(expected: Option<String>, file_name: String) -> Seq<char> {
    match expected {
        Some(e) => e@,
        None => file_name@,
    }
}

/// Whether `f` is the input file for stored file `id`, placed at `path`.
pub open spec fn is_input_file(f: FileInfo, id: u128, path: Seq<char>, is_package: bool) -> bool {
    f matches FileInfo::Input { path: p, is_package: ip, form: InFileForm::Id(x) } && p@ == path
        && ip == is_package && x == id
}

/// The literal of input slot `d` of `node`: `None` for an empty optional
/// slot.
pub open spec fn content_literal(node: NodeSpec, d: Seq<char>, texts: Seq<(u128, String)>) -> Result<Option<Seq<char>>, KernelError> {
    let i = first_index(node.input_slots@, in_named(d));
    if i < 0 || i >= node.input_slots@.len() {
        Err(KernelError::NoSuchSlot)
    } else {
        let slot = node.input_slots@[i];
        match slot.kind {
            NodeInputSlotKind::Unknown => Err(KernelError::UnknownSlotKind),
            NodeInputSlotKind::Text { contents: None, .. } => if slot.optional {
                Ok(None)
            } else {
                Err(KernelError::RequiredSlotEmpty)
            },
            NodeInputSlotKind::File { contents: None, .. } => if slot.optional {
                Ok(None)
            } else {
                Err(KernelError::RequiredSlotEmpty)
            },
            NodeInputSlotKind::Text { contents: Some(ids), .. } => if all_stored(texts, ids@) {
                Ok(Some(join_spaced(texts_of(texts, ids@))))
            } else {
                Err(KernelError::MissingText)
            },
            NodeInputSlotKind::File { contents: Some(files), expected_file_name, .. } => Ok(
                Some(join_spaced(files@.map_values(|f: crate::model::FileInput| effective_name(expected_file_name, f.file_metadata_name)))),
            ),
        }
    }
}

/// The input files that input slot `d` of `node` brings: one per bound
/// file of a file slot, none otherwise.
pub open spec fn content_files(node: NodeSpec, d: Seq<char>) -> Seq<crate::task::FileView> {
    let i = first_index(node.input_slots@, in_named(d));
    if 0 <= i < node.input_slots@.len() {
        match node.input_slots@[i].kind {
            NodeInputSlotKind::File { contents: Some(files), expected_file_name, is_batch } => files@.map_values(
                |f: crate::model::FileInput| (0int, effective_name(expected_file_name, f.file_metadata_name), is_batch, false, f.file_metadata_id, 0int, Seq::<char>::empty()),
            ),
            _ => Seq::empty(),
        }
    } else {
        Seq::empty()
    }
}

/// A content result as its literal.
pub open spec fn literal_result(r: Result<Option<InContent>, KernelError>) -> Result<Option<Seq<char>>, KernelError> {
    match r {
        Ok(Some(c)) => Ok(Some(c.literal@)),
        Ok(None) => Ok(None),
        Err(e) => Err(e),
    }
}

/// Appends `b` to `a` with a space between, unless `a` is the first part.
fn append_part(acc: &mut String, first: bool, part: &String)
    ensures
        first ==> final(acc)@ == old(acc)@ + part@,
        !first ==> final(acc)@ == old(acc)@ + seq![' '] + part@,
{
    if !first {
        acc.append(" ");
        proof {
            reveal_strlit(" ");
        }
    }
    acc.append(part.as_str());
}

/// The content bound on input slot `descriptor` of `node`: `None` for an
/// empty optional slot; the stored texts of a text slot, joined by spaces; the
/// file names of a file slot, joined by spaces, with one input file each.
pub fn get_content(node: &NodeSpec, descriptor: &String, texts: &Vec<(u128, String)>) -> (r: Result<Option<InContent>, KernelError>)
    ensures
        literal_result(r) == content_literal(*node, descriptor@, texts@),
        r matches Ok(Some(c)) ==> crate::task::files_view(c.infiles@) == content_files(*node, descriptor@),
        r matches Ok(None) ==> content_files(*node, descriptor@).len() == 0,
        ({
            let i = first_index(node.input_slots@, in_named(descriptor@));
            if i < 0 || i >= node.input_slots@.len() {
                r == Err::<Option<InContent>, KernelError>(KernelError::NoSuchSlot)
            } else {
                let slot = node.input_slots@[i];
                match slot.kind {
                    NodeInputSlotKind::Unknown => r == Err::<Option<InContent>, KernelError>(
                        KernelError::UnknownSlotKind,
                    ),
                    NodeInputSlotKind::Text { contents: None, .. } => if slot.optional {
                        r == Ok::<Option<InContent>, KernelError>(None)
                    } else {
                        r == Err::<Option<InContent>, KernelError>(KernelError::RequiredSlotEmpty)
                    },
                    NodeInputSlotKind::File { contents: None, .. } => if slot.optional {
                        r == Ok::<Option<InContent>, KernelError>(None)
                    } else {
                        r == Err::<Option<InContent>, KernelError>(KernelError::RequiredSlotEmpty)
                    },
                    NodeInputSlotKind::Text { contents: Some(ids), .. } => if all_stored(texts@, ids@) {
                        r matches Ok(Some(c)) && c.literal@ == join_spaced(texts_of(texts@, ids@))
                            && c.infiles@.len() == 0
                    } else {
                        r == Err::<Option<InContent>, KernelError>(KernelError::MissingText)
                    },
                    NodeInputSlotKind::File { contents: Some(files), expected_file_name, is_batch } => {
                        r matches Ok(Some(c)) && c.literal@ == join_spaced(
                            files@.map_values(|f: crate::model::FileInput| effective_name(expected_file_name, f.file_metadata_name)),
                        ) && c.infiles@.len() == files@.len() && forall|k: int|
                            0 <= k < files@.len() ==> is_input_file(
                                #[trigger] c.infiles@[k],
                                files@[k].file_metadata_id,
                                effective_name(expected_file_name, files@[k].file_metadata_name),
                                is_batch,
                            )
                    },
                }
            }
        }),
{
    proof {
        lemma_first_index_range(node.input_slots@, in_named(descriptor@));
    }
    let slot = match node.input_slot(descriptor) {
        Some(s) => s,
        None => {
            return Err(KernelError::NoSuchSlot);
        },
    };
    match &slot.kind {
        NodeInputSlotKind::Unknown => Err(KernelError::UnknownSlotKind),
        NodeInputSlotKind::Text { contents: None, .. } | NodeInputSlotKind::File { contents: None, .. } => {
            if slot.optional {
                Ok(None)
            } else {
                Err(KernelError::RequiredSlotEmpty)
            }
        },
        NodeInputSlotKind::Text { contents: Some(ids), .. } => {
            let mut literal = String::new();
            let mut k: usize = 0;
            while k < ids.len()
                invariant
                    *slot == node.input_slots@[first_index(node.input_slots@, in_named(descriptor@))],
                    0 <= first_index(node.input_slots@, in_named(descriptor@)) < node.input_slots@.len(),
                    slot.kind matches NodeInputSlotKind::Text { contents: Some(v), .. } && v == *ids,
                    k <= ids@.len(),
                    forall|j: int| 0 <= j < k ==> (text_of(texts@, #[trigger] ids@[j]) is Some),
                    literal@ == join_spaced(texts_of(texts@, ids@.subrange(0, k as int))),
                decreases ids@.len() - k,
            {
                let t = match lookup_text(texts, ids[k]) {
                    Ok(t) => t,
                    Err(e) => {
                        assert(!all_stored(texts@, ids@)) by {
                            assert(text_of(texts@, ids@[k as int]) is None);
                        }
                        return Err(e);
                    },
                };
                proof {
                    let a = texts_of(texts@, ids@.subrange(0, k + 1));
                    assert(a.drop_last() =~= texts_of(texts@, ids@.subrange(0, k as int)));
                    assert(a.last() == t@);
                    if k == 0 {
                        assert(a =~= seq![t@]);
                    }
                }
                append_part(&mut literal, k == 0, &t);
                k += 1;
            }
            proof {
                assert(ids@.subrange(0, k as int) =~= ids@);
            }
            let infiles: Vec<FileInfo> = Vec::new();
            assert(crate::task::files_view(infiles@) =~= content_files(*node, descriptor@));
            Ok(Some(InContent { literal, infiles }))
        },
        NodeInputSlotKind::File { contents: Some(files), expected_file_name, is_batch } => {
            let ghost names = files@.map_values(|f: crate::model::FileInput| effective_name(*expected_file_name, f.file_metadata_name));
            let mut literal = String::new();
            let mut infiles: Vec<FileInfo> = Vec::new();
            let mut k: usize = 0;
            while k < files.len()
                invariant
                    k <= files@.len(),
                    names == files@.map_values(|f: crate::model::FileInput| effective_name(*expected_file_name, f.file_metadata_name)),
                    literal@ == join_spaced(names.subrange(0, k as int)),
                    infiles@.len() == k,
                    forall|j: int|
                        0 <= j < k ==> is_input_file(
                            #[trigger] infiles@[j],
                            files@[j].file_metadata_id,
                            effective_name(*expected_file_name, files@[j].file_metadata_name),
                            *is_batch,
                        ),
                decreases files@.len() - k,
            {
                let name = match expected_file_name {
                    Some(e) => e.clone(),
                    None => files[k].file_metadata_name.clone(),
                };
                proof {
                    let a = names.subrange(0, k + 1);
                    assert(a.drop_last() =~= names.subrange(0, k as int));
                    assert(a.last() == name@);
                    if k == 0 {
                        assert(a =~= seq![name@]);
                    }
                }
                append_part(&mut literal, k == 0, &name);
                infiles.push(FileInfo::Input { path: name, is_package: *is_batch, form: InFileForm::Id(files[k].file_metadata_id) });
                k += 1;
            }
            proof {
                assert(names.subrange(0, k as int) =~= names);
                assert(crate::task::files_view(infiles@) =~= content_files(*node, descriptor@));
            }
            Ok(Some(InContent { literal, infiles }))
        },
    }
}

} // verus!
