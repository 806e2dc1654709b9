//! The software-package manifest that a use-case node is compiled against.
use vstd::prelude::*;
use crate::model::Requirements;

verus! {

/// An argument material: a command-line argument with `{{}}` placeholders.
#[derive(Clone, Debug)]
pub struct Argument {
    pub descriptor: String,
    pub value_format: String,
}

/// An environment material: a variable whose value has `{{}}` placeholders.
#[derive(Clone, Debug)]
pub struct Environment {
    pub descriptor: String,
    pub key: String,
    pub value_format: String,
}

/// A file family: one file, or a batch matched by a wildcard.
#[derive(Clone, Debug)]
pub enum FileKind {
    Normal(String),
    Batched(String),
}

/// A declared input file family.
#[derive(Clone, Debug)]
pub struct FilesomeInput {
    pub descriptor: String,
    pub file_kind: FileKind,
}

/// A declared output file family.
#[derive(Clone, Debug)]
pub struct FilesomeOutput {
    pub descriptor: String,
    pub file_kind: FileKind,
}

/// Where a text input is used.
#[derive(Clone, Debug)]
pub enum TextRef {
    ArgRef { descriptor: String, sort: usize, placeholder_nth: usize },
    EnvRef { descriptor: String, placeholder_nth: usize },
    StdIn,
    TemplateRef { descriptor: String, ref_keys: Vec<String> },
}

/// Where a file input (by its name) is used.
#[derive(Clone, Debug)]
pub enum FileRef {
    ArgRef { descriptor: String, sort: usize, placeholder_nth: usize },
    EnvRef { descriptor: String, placeholder_nth: usize },
    StdIn,
    FileInputRef(String),
    TemplateRef { descriptor: String, ref_keys: Vec<String> },
}

/// An input slot declared by a use case.
#[derive(Clone, Debug)]
pub enum InputSlot {
    Text { descriptor: String, ref_materials: Vec<TextRef>, optional: bool },
    File { descriptor: String, ref_materials: Vec<FileRef>, optional: bool },
}

/// Who decides the path of an output file.
#[derive(Clone, Debug)]
pub enum AppointedBy {
    /// The material's own name or wildcard.
    Material,
    /// The text bound on this input slot.
    InputSlot { text_input_descriptor: String },
}

/// An output file material and who names it.
#[derive(Clone, Debug)]
pub struct FileOutAndAppointedBy {
    pub file_out_material_descriptor: String,
    pub kind: AppointedBy,
}

/// Where a file output slot's file comes from.
#[derive(Clone, Debug)]
pub enum FileOutOrigin {
    CollectedOut(String),
    UsecaseOut(FileOutAndAppointedBy),
}

/// An output slot declared by a use case.
#[derive(Clone, Debug)]
pub enum OutputSlot {
    Text { descriptor: String, collected_out_descriptor: String, optional: bool },
    File { descriptor: String, origin: FileOutOrigin, optional: bool },
}

/// What an output collector reads.
#[derive(Clone, Debug)]
pub enum CollectFrom {
    FileOut(String),
    Stdout,
    Stderr,
}

/// How an output collector picks its result.
#[derive(Clone, Debug)]
pub enum CollectRule {
    Regex(String),
    BottomLines(usize),
    TopLines(usize),
}

/// Where a collected result goes.
#[derive(Clone, Debug)]
pub enum CollectTo {
    Text,
    File { path: String },
}

/// An output collector.
#[derive(Clone, Debug)]
pub struct CollectedOut {
    pub descriptor: String,
    pub from: CollectFrom,
    pub collecting: CollectRule,
    pub to: CollectTo,
}

/// A template file of a use case and where its rendering is used.
#[derive(Clone, Debug)]
pub struct TemplateFile {
    pub descriptor: String,
    pub as_content: Vec<TextRef>,
    pub as_file_name: Vec<FileRef>,
}

/// The name and text of a template file.
#[derive(Clone, Debug)]
pub struct TemplateFileInfo {
    pub descriptor: String,
    pub file_name: String,
    pub content: String,
}

/// How a use case is invoked.
#[derive(Clone, Debug)]
pub struct UsecaseSpec {
    pub command_file: String,
    /// Argument materials always present, with their sort.
    pub flag_arguments: Vec<(String, usize)>,
    /// Environment materials always present.
    pub flag_environments: Vec<String>,
    pub input_slots: Vec<InputSlot>,
    pub output_slots: Vec<OutputSlot>,
    pub template_files: Vec<TemplateFile>,
    pub requirements: Option<Requirements>,
}

/// How the software is provided on a cluster.
#[derive(Clone, Debug)]
pub enum SoftwareSpec {
    Spack { name: String, argument_list: Vec<String> },
    Singularity { image: String, tag: String },
}

/// A use case joined with its software package.
#[derive(Clone, Debug)]
pub struct ComputingUsecase {
    pub usecase_spec: UsecaseSpec,
    pub arguments: Vec<Argument>,
    pub environments: Vec<Environment>,
    pub filesome_inputs: Vec<FilesomeInput>,
    pub filesome_outputs: Vec<FilesomeOutput>,
    pub software_spec: SoftwareSpec,
    pub template_file_infos: Vec<TemplateFileInfo>,
    pub collected_outs: Vec<CollectedOut>,
}

} // verus!
