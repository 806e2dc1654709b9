use workflow_kernel::compile::{deployment_query, is_partial_free, remove_char, route_rendered_text, SoftwareComputingUsecaseService};
use workflow_kernel::content::get_content;
use workflow_kernel::dispatch::{command_line, node_status_topic, operation_task, NoActionUsecaseService};
use workflow_kernel::error::KernelError;
use workflow_kernel::format::{fill_argument, fill_template, render_format, replace_first_hole, FormatFill};
use workflow_kernel::model::{
    BatchStrategy, BatchStrategyKind, FileInput, FileOutOrigin, Filler, Input, NodeInputSlot,
    NodeInputSlotKind, NodeInstanceKind, NodeInstanceStatus, NodeKind, NodeRelation, NodeSpec,
    NodeSpecOutputSlot, NodeSpecOutputSlotKind, SchedulingStrategy, SlotRelation,
    SoftwareUsecaseComputing, TextInputSlotRule, TransferStrategy, WorkflowInstance,
    WorkflowInstanceSpec,
};
use workflow_kernel::mover::{
    get_meta_id_failed_info, key, mark_all_failed, meta_id_key_regex, move_id_key_regex,
    plan_flash_upload, plan_registered_move, set_move_as_failed, FlashUploadPlan, MoveAction,
    MoveDestination, MoveRegistration, RecordNetDisk,
};
use workflow_kernel::package::{
    Argument, CollectFrom, CollectRule, CollectTo, CollectedOut, ComputingUsecase, Environment,
    FileKind, FileOutAndAppointedBy, FileRef, FilesomeOutput, InputSlot, OutputSlot, SoftwareSpec,
    TemplateFile, TemplateFileInfo, TextRef, UsecaseSpec, AppointedBy,
};
use workflow_kernel::task::{FileInfo, Operation, StdInKind, TaskBody, TaskCommand, TaskResultStatus};
use workflow_kernel::validate::{check_sorts, IPackageValidateService, PackageValidateService, SoftwareData, UsecaseData, ValidateData};

fn s(x: &str) -> String {
    x.to_string()
}

fn text_slot(d: &str, ids: Option<Vec<u128>>, optional: bool) -> NodeInputSlot {
    NodeInputSlot {
        kind: NodeInputSlotKind::Text { contents: ids, rule: TextInputSlotRule::AnyString },
        optional,
        descriptor: s(d),
        description: None,
    }
}

fn text_out(d: &str, ids: Vec<u128>) -> NodeSpecOutputSlot {
    NodeSpecOutputSlot {
        kind: NodeSpecOutputSlotKind::Text { all_tasks_prepared_text_keys: ids },
        descriptor: s(d),
        optional: false,
    }
}

fn file_out(d: &str, ids: Vec<u128>) -> NodeSpecOutputSlot {
    NodeSpecOutputSlot {
        kind: NodeSpecOutputSlotKind::File { all_tasks_prepared_content_ids: ids, origin: FileOutOrigin::UsecaseOut },
        descriptor: s(d),
        optional: false,
    }
}

fn node(id: u128, name: &str, inputs: Vec<NodeInputSlot>, outputs: Vec<NodeSpecOutputSlot>, batch: Vec<BatchStrategy>) -> NodeSpec {
    NodeSpec {
        id,
        name: s(name),
        kind: NodeKind::SoftwareUsecaseComputing {
            data: SoftwareUsecaseComputing { usecase_version_id: 1, software_version_id: 2 },
        },
        input_slots: inputs,
        output_slots: outputs,
        batch_strategies: batch,
        scheduling_strategy: SchedulingStrategy::Auto,
        requirements: None,
    }
}

fn relation(from: u128, to: u128, from_slot: &str, to_slot: &str) -> NodeRelation {
    NodeRelation {
        from_id: from,
        to_id: to,
        slot_relations: vec![SlotRelation { from_slot: s(from_slot), to_slot: s(to_slot), transfer_strategy: TransferStrategy::Network }],
    }
}

fn batch(d: &str, kind: BatchStrategyKind) -> BatchStrategy {
    BatchStrategy { input_slot_descriptor: s(d), renaming_pattern: None, kind }
}

fn fan_out_workflow() -> WorkflowInstance {
    let u = node(1, "U", vec![text_slot("in", Some(vec![11, 12, 13]), false)], vec![text_out("out", vec![21, 22, 23])], vec![batch("in", BatchStrategyKind::OriginalBatch)]);
    let v = node(2, "V", vec![text_slot("vin", None, false)], vec![text_out("vout", vec![31])], vec![batch("vin", BatchStrategyKind::FromBatchOutputs)]);
    WorkflowInstance {
        id: 99,
        spec: WorkflowInstanceSpec { node_specs: vec![u, v], node_relations: vec![relation(1, 2, "out", "vin")] },
    }
}

fn manifest(arguments: Vec<Argument>, input_slots: Vec<InputSlot>) -> ComputingUsecase {
    ComputingUsecase {
        usecase_spec: UsecaseSpec {
            command_file: s("run"),
            flag_arguments: vec![],
            flag_environments: vec![],
            input_slots,
            output_slots: vec![],
            template_files: vec![],
            requirements: None,
        },
        arguments,
        environments: vec![],
        filesome_inputs: vec![],
        filesome_outputs: vec![],
        software_spec: SoftwareSpec::Singularity { image: s("img"), tag: s("1") },
        template_file_infos: vec![],
        collected_outs: vec![],
    }
}

fn execution(body: &[TaskBody]) -> &TaskBody {
    body.iter().find(|b| matches!(b, TaskBody::UsecaseExecution { .. })).unwrap()
}

fn registration(destination: MoveDestination, user: Option<u128>) -> MoveRegistration {
    MoveRegistration {
        id: 5,
        meta_id: 6,
        file_name: s("a.txt"),
        destination,
        hash: s("h"),
        hash_algorithm: s("sha256"),
        size: 10,
        user_id: user,
        is_upload_failed: false,
        failed_reason: None,
    }
}

#[test]
fn asd() {
    let mut table: Vec<(String, Vec<(String, Option<String>)>)> = Vec::new();
    fill_template(&mut table, &s("x"), &s("asd"), Some(s("asf")));
    assert_eq!(table.len(), 1);
    assert_eq!(table[0].1, vec![(s("asd"), Some(s("asf")))]);
}

#[test]
fn batch_fan_out_count() {
    let w = fan_out_workflow();
    assert_eq!(w.sub_node_count(1), Ok(3));
    assert_eq!(w.sub_node_count(2), Ok(3));
    let instances = w.parse_node_instances().unwrap();
    assert_eq!(instances.len(), 8);
    assert_eq!(instances[0].id, 1);
    assert!(instances[0].is_parent);
    assert_eq!(instances[1].name, "U_sub_task_0");
    assert_eq!(instances[3].name, "U_sub_task_2");
    assert_eq!(instances[1].batch_parent_id, Some(1));
    assert_eq!(instances[4].id, 2);
    assert_eq!(instances[7].name, "V_sub_task_2");
    assert_eq!(instances[7].flow_instance_id, 99);
    assert_eq!(instances[7].status, NodeInstanceStatus::Created);
    assert_eq!(instances[7].kind, NodeInstanceKind::SoftwareUsecaseComputing);
}

#[test]
fn instance_count_with_plain_node() {
    let mut w = fan_out_workflow();
    w.spec.node_specs.push(node(3, "P", vec![], vec![], vec![]));
    w.spec.node_specs[0].batch_strategies.push(batch("in", BatchStrategyKind::MatchRegex { regex_to_match: s(".*"), fill_count: 2, filler: Filler::default() }));
    assert_eq!(w.sub_node_count(1), Ok(6));
    assert_eq!(w.parse_node_instances().unwrap().len(), 3 + 6 + 6);
}

#[test]
fn cycle_rejection() {
    let a = node(1, "A", vec![text_slot("x", None, true)], vec![text_out("y", vec![1])], vec![]);
    let b = node(2, "B", vec![text_slot("x", None, true)], vec![text_out("y", vec![2])], vec![]);
    let w = WorkflowInstance {
        id: 7,
        spec: WorkflowInstanceSpec { node_specs: vec![a, b], node_relations: vec![relation(1, 2, "y", "x"), relation(2, 1, "y", "x")] },
    };
    assert!(!w.spec.is_acyclic());
    assert_eq!(w.parse_node_instances().unwrap_err(), KernelError::WorkflowCyclic);
}

#[test]
fn self_loop_is_cyclic() {
    let a = node(1, "A", vec![], vec![], vec![]);
    let w = WorkflowInstanceSpec { node_specs: vec![a], node_relations: vec![relation(1, 1, "y", "x")] };
    assert!(!w.is_acyclic());
}

#[test]
fn chain_is_acyclic() {
    assert!(fan_out_workflow().spec.is_acyclic());
}

#[test]
fn missing_batch_slot() {
    let mut w = fan_out_workflow();
    w.spec.node_specs[0].batch_strategies[0].input_slot_descriptor = s("nope");
    assert_eq!(w.sub_node_count(1), Err(KernelError::NoSuchSlot));
    assert_eq!(w.sub_node_count(42), Err(KernelError::NoSuchNode));
    assert_eq!(w.parse_node_instances().unwrap_err(), KernelError::NoSuchSlot);
}

#[test]
fn sub_count_overflow() {
    let mut w = fan_out_workflow();
    let big = BatchStrategyKind::MatchRegex { regex_to_match: s(""), fill_count: usize::MAX, filler: Filler::default() };
    w.spec.node_specs[0].batch_strategies.push(batch("in", big));
    assert_eq!(w.sub_node_count(1), Err(KernelError::CountOverflow));
}

#[test]
fn propagation_fills_nth_output() {
    let w = fan_out_workflow();
    let v = w.spec.node_specs[1].clone();
    let filled = w.produce_node_spec_by_complete_node_inputs(v, Some(2)).unwrap();
    match &filled.input_slots[0].kind {
        NodeInputSlotKind::Text { contents, .. } => assert_eq!(contents, &Some(vec![23])),
        _ => panic!("kind changed"),
    }
    let v = w.spec.node_specs[1].clone();
    let filled = w.produce_node_spec_by_complete_node_inputs(v, None).unwrap();
    match &filled.input_slots[0].kind {
        NodeInputSlotKind::Text { contents, .. } => assert_eq!(contents, &Some(vec![21])),
        _ => panic!("kind changed"),
    }
}

#[test]
fn propagation_errors() {
    let w = fan_out_workflow();
    let v = w.spec.node_specs[1].clone();
    assert_eq!(w.produce_node_spec_by_complete_node_inputs(v, Some(3)).unwrap_err(), KernelError::MissingOutput { nth: 3 });
    let mut v = w.spec.node_specs[1].clone();
    v.input_slots[0].kind = NodeInputSlotKind::File { contents: None, expected_file_name: None, is_batch: false };
    assert_eq!(w.produce_node_spec_by_complete_node_inputs(v, None).unwrap_err(), KernelError::SlotKindMismatch);
    let mut v = w.spec.node_specs[1].clone();
    v.input_slots[0].kind = NodeInputSlotKind::Unknown;
    assert_eq!(w.produce_node_spec_by_complete_node_inputs(v, None).unwrap_err(), KernelError::UnknownSlotKind);
    let unrelated = w.spec.node_specs[0].clone();
    let same = w.produce_node_spec_by_complete_node_inputs(unrelated, Some(9)).unwrap();
    assert_eq!(same.input_slots[0].descriptor, "in");
}

#[test]
fn sub_nodes_bind_inputs() {
    let parent = fan_out_workflow().spec.node_specs[0].clone();
    let file = FileInput { file_metadata_id: 4, file_metadata_name: s("f"), hash: s("h"), size: 1 };
    let tasks = vec![(100u128, vec![(s("in"), Input::Text(77))]), (101u128, vec![])];
    let subs = parent.parse_sub_nodes(&tasks).unwrap();
    assert_eq!(subs.len(), 2);
    assert_eq!(subs[0].id, 100);
    match &subs[0].input_slots[0].kind {
        NodeInputSlotKind::Text { contents, .. } => assert_eq!(contents, &Some(vec![77])),
        _ => panic!("kind changed"),
    }
    match &subs[1].output_slots[0].kind {
        NodeSpecOutputSlotKind::Text { all_tasks_prepared_text_keys } => assert_eq!(all_tasks_prepared_text_keys.len(), 1),
        _ => panic!("kind changed"),
    }
    let bad = vec![(102u128, vec![(s("in"), Input::File(file))])];
    assert_eq!(parent.parse_sub_nodes(&bad).unwrap_err(), KernelError::MismatchedInputKind);
}

#[test]
fn text_keys_collects_ids() {
    let n = node(1, "n", vec![text_slot("a", Some(vec![1, 2]), false), text_slot("b", None, true), text_slot("c", Some(vec![3]), false)], vec![], vec![]);
    assert_eq!(n.text_keys(), vec![1, 2, 3]);
}

#[test]
fn argument_assembly() {
    let m = manifest(
        vec![Argument { descriptor: s("a"), value_format: s("--n={{}}") }],
        vec![InputSlot::Text { descriptor: s("x"), ref_materials: vec![TextRef::ArgRef { descriptor: s("a"), sort: 0, placeholder_nth: 0 }], optional: false }],
    );
    let n = node(1, "n", vec![text_slot("x", Some(vec![8]), false)], vec![], vec![]);
    let task = SoftwareComputingUsecaseService::parse_task(&n, &m, &vec![(8, s("5"))], false, true).unwrap();
    assert_eq!(task.id, 1);
    assert_eq!(task.command, TaskCommand::Start);
    assert_eq!(task.body.len(), 1);
    match execution(&task.body) {
        TaskBody::UsecaseExecution { name, arguments, .. } => {
            assert_eq!(name, "run");
            assert_eq!(arguments, &vec![s("--n=5")]);
        },
        _ => unreachable!(),
    }
    assert_eq!(command_line(&task), Some(s("run --n=5")));
}

#[test]
fn deployment_step_when_not_installed() {
    let m = manifest(vec![], vec![]);
    let n = node(1, "n", vec![], vec![], vec![]);
    let task = SoftwareComputingUsecaseService::parse_task(&n, &m, &vec![], false, false).unwrap();
    assert!(matches!(task.body[0], TaskBody::SoftwareDeployment { .. }));
    assert_eq!(command_line(&task), Some(s("run")));
    let task = SoftwareComputingUsecaseService::parse_task(&n, &m, &vec![], true, false).unwrap();
    assert_eq!(task.body.len(), 1);
}

#[test]
fn template_rendering() {
    let mut m = manifest(
        vec![],
        vec![InputSlot::Text { descriptor: s("n"), ref_materials: vec![TextRef::TemplateRef { descriptor: s("t"), ref_keys: vec![s("n")] }], optional: false }],
    );
    m.usecase_spec.template_files.push(TemplateFile { descriptor: s("t"), as_content: vec![TextRef::StdIn], as_file_name: vec![] });
    m.template_file_infos.push(TemplateFileInfo { descriptor: s("t"), file_name: s("t.in"), content: s("x={{n}}") });
    let n = node(1, "n", vec![text_slot("n", Some(vec![4]), false)], vec![], vec![]);
    let task = SoftwareComputingUsecaseService::parse_task(&n, &m, &vec![(4, s("42"))], true, true).unwrap();
    match execution(&task.body) {
        TaskBody::UsecaseExecution { std_in: StdInKind::Text { text }, files, .. } => {
            assert_eq!(text, "x=42");
            assert!(files.is_empty());
        },
        _ => panic!("std_in not set"),
    }
}

#[test]
fn template_chain_unsupported() {
    let mut m = manifest(
        vec![],
        vec![InputSlot::Text { descriptor: s("n"), ref_materials: vec![TextRef::TemplateRef { descriptor: s("t"), ref_keys: vec![s("n")] }], optional: false }],
    );
    m.usecase_spec.template_files.push(TemplateFile { descriptor: s("t"), as_content: vec![TextRef::TemplateRef { descriptor: s("u"), ref_keys: vec![] }], as_file_name: vec![] });
    m.template_file_infos.push(TemplateFileInfo { descriptor: s("t"), file_name: s("t.in"), content: s("x") });
    let n = node(1, "n", vec![text_slot("n", Some(vec![4]), false)], vec![], vec![]);
    let r = SoftwareComputingUsecaseService::parse_task(&n, &m, &vec![(4, s("42"))], true, true);
    assert_eq!(r.unwrap_err(), KernelError::UnsupportedRefChain);
}

#[test]
fn output_files_and_collectors() {
    let mut m = manifest(vec![], vec![]);
    m.filesome_outputs.push(FilesomeOutput { descriptor: s("om"), file_kind: FileKind::Batched(s("*.out")) });
    m.usecase_spec.output_slots.push(OutputSlot::File {
        descriptor: s("o"),
        origin: workflow_kernel::package::FileOutOrigin::UsecaseOut(FileOutAndAppointedBy { file_out_material_descriptor: s("om"), kind: AppointedBy::Material }),
        optional: false,
    });
    m.collected_outs.push(CollectedOut { descriptor: s("c"), from: CollectFrom::Stdout, collecting: CollectRule::TopLines(3), to: CollectTo::Text });
    m.usecase_spec.output_slots.push(OutputSlot::Text { descriptor: s("t"), collected_out_descriptor: s("c"), optional: true });
    let n = node(1, "n", vec![], vec![file_out("o", vec![50]), text_out("t", vec![60])], vec![]);
    let task = SoftwareComputingUsecaseService::parse_task(&n, &m, &vec![], true, true).unwrap();
    assert_eq!(task.body.len(), 2);
    match execution(&task.body) {
        TaskBody::UsecaseExecution { files, .. } => match &files[0] {
            FileInfo::Output { id, path, is_package, optional } => {
                assert_eq!(*id, 50);
                assert_eq!(path, "*.out");
                assert!(*is_package);
                assert!(!*optional);
            },
            _ => panic!("no output"),
        },
        _ => unreachable!(),
    }
    assert!(matches!(task.body[1], TaskBody::CollectedOut { optional: true, .. }));
    m.collected_outs[0].to = CollectTo::File { path: s("p") };
    let r = SoftwareComputingUsecaseService::parse_task(&n, &m, &vec![], true, true);
    assert_eq!(r.unwrap_err(), KernelError::MismatchedCollectTarget);
    m.collected_outs.clear();
    let r = SoftwareComputingUsecaseService::parse_task(&n, &m, &vec![], true, true);
    assert_eq!(r.unwrap_err(), KernelError::NoSuchCollector { descriptor: s("c") });
}

#[test]
fn compile_errors() {
    let m = manifest(
        vec![],
        vec![InputSlot::Text { descriptor: s("x"), ref_materials: vec![TextRef::ArgRef { descriptor: s("a"), sort: 0, placeholder_nth: 0 }], optional: false }],
    );
    let n = node(1, "n", vec![text_slot("x", Some(vec![8]), false)], vec![], vec![]);
    assert_eq!(SoftwareComputingUsecaseService::parse_task(&n, &m, &vec![(8, s("5"))], true, true).unwrap_err(), KernelError::NoSuchMaterial { descriptor: s("a") });
    let empty = node(1, "n", vec![text_slot("x", None, false)], vec![], vec![]);
    assert_eq!(SoftwareComputingUsecaseService::parse_task(&empty, &m, &vec![], true, true).unwrap_err(), KernelError::RequiredSlotEmpty);
    let mut other = n.clone();
    other.kind = NodeKind::NoAction;
    assert_eq!(SoftwareComputingUsecaseService::parse_task(&other, &m, &vec![], true, true).unwrap_err(), KernelError::MismatchedInputKind);
}

#[test]
fn content_of_slots() {
    let file = FileInput { file_metadata_id: 4, file_metadata_name: s("f.dat"), hash: s("h"), size: 1 };
    let n = node(1, "n", vec![
        text_slot("t", Some(vec![1, 2]), false),
        text_slot("o", None, true),
        NodeInputSlot { kind: NodeInputSlotKind::File { contents: Some(vec![file]), expected_file_name: Some(s("in.dat")), is_batch: true }, optional: false, descriptor: s("f"), description: None },
    ], vec![], vec![]);
    let texts = vec![(1, s("a")), (2, s("b"))];
    let c = get_content(&n, &s("t"), &texts).unwrap().unwrap();
    assert_eq!(c.literal, "a b");
    assert!(get_content(&n, &s("o"), &texts).unwrap().is_none());
    let c = get_content(&n, &s("f"), &texts).unwrap().unwrap();
    assert_eq!(c.literal, "in.dat");
    assert!(matches!(&c.infiles[0], FileInfo::Input { path, is_package: true, .. } if path == "in.dat"));
    assert_eq!(get_content(&n, &s("t"), &vec![(1, s("a"))]).unwrap_err(), KernelError::MissingText);
    assert_eq!(get_content(&n, &s("z"), &texts).unwrap_err(), KernelError::NoSuchSlot);
}

#[test]
fn format_filling() {
    let mut f = FormatFill::new(s("a{{}}b{{}}c"));
    f.set_fill(1, Some(s("2")));
    f.set_fill(0, Some(s("1")));
    assert_eq!(render_format(&f), "a1b2c");
    f.set_fill(1, None);
    assert_eq!(render_format(&f), "a1bc");
    assert_eq!(replace_first_hole(&s("no holes"), "x"), "no holes");
    assert_eq!(replace_first_hole(&s("{{}}{{}}"), "x"), "x{{}}");
    let mut table: Vec<(usize, FormatFill)> = Vec::new();
    fill_argument(&mut table, 2, &s("b"), None);
    fill_argument(&mut table, 0, &s("a"), None);
    fill_argument(&mut table, 1, &s("m"), None);
    let sorts: Vec<usize> = table.iter().map(|e| e.0).collect();
    assert_eq!(sorts, vec![0, 1, 2]);
}

#[test]
fn sort_range_check() {
    assert!(check_sorts(&vec![1, 0, 2]));
    assert!(!check_sorts(&vec![0, 2]));
    assert!(!check_sorts(&vec![1]));
    assert!(check_sorts(&vec![]));
}

#[test]
fn package_validation_sorts() {
    let args = vec![Argument { descriptor: s("a"), value_format: s("-a {{}}") }, Argument { descriptor: s("b"), value_format: s("-b") }];
    let data = |sort_b: usize| ValidateData {
        software_data: SoftwareData {
            spec: SoftwareSpec::Spack { name: s("vasp"), argument_list: vec![s("@6.1")] },
            arguments: args.clone(),
            environments: vec![Environment { descriptor: s("e"), key: s("K"), value_format: s("{{}}") }],
            filesome_inputs: vec![],
            filesome_outputs: vec![],
        },
        usecase_data: UsecaseData {
            spec: UsecaseSpec {
                command_file: s("vasp"),
                flag_arguments: vec![],
                flag_environments: vec![],
                input_slots: vec![InputSlot::Text {
                    descriptor: s("x"),
                    ref_materials: vec![
                        TextRef::ArgRef { descriptor: s("a"), sort: 0, placeholder_nth: 0 },
                        TextRef::ArgRef { descriptor: s("b"), sort: sort_b, placeholder_nth: 0 },
                    ],
                    optional: false,
                }],
                output_slots: vec![],
                template_files: vec![],
                requirements: None,
            },
            collected_outs: vec![],
            template_file_infos: vec![],
        },
    };
    let service = PackageValidateService::new();
    let p = service.validate(data(1)).unwrap();
    assert_eq!(p.argument_formats_sorts.len(), 2);
    assert_eq!(p.argument_formats_sorts[1].0, 1);
    assert_eq!(p.argument_formats_sorts[1].1.format, "-b");
    assert_eq!(service.validate(data(2)).unwrap_err(), KernelError::SortGap);
    assert_eq!(service.package_validate(data(2)).unwrap_err(), KernelError::SortGap);
    assert_eq!(service.package_validate(data(1)).unwrap().argument_formats_sorts[0].0, 0);
}

#[test]
fn no_action_dispatch() {
    let service = NoActionUsecaseService::new();
    let r = service.handle_usecase(&node(0xA, "A", vec![], vec![], vec![]));
    assert_eq!(r.id, 0xA);
    assert_eq!(r.status, TaskResultStatus::Success);
    assert_eq!(r.message, "");
    assert!(r.used_resources.is_none());
    assert_eq!(node_status_topic(), "node_status");
    let r = service.operate_task(Operation { task_id: 3, command: TaskCommand::Pause });
    assert_eq!(r.status, TaskResultStatus::Paused);
    let r = service.operate_task(Operation { task_id: 3, command: TaskCommand::Delete });
    assert_eq!(r.status, TaskResultStatus::Deleted);
    assert_eq!(service.get_service_type(), NodeInstanceKind::NoAction);
    let t = operation_task(Operation { task_id: 3, command: TaskCommand::Continue });
    assert_eq!(t.command, TaskCommand::Continue);
    assert!(t.body.is_empty());
}

#[test]
fn move_keys() {
    let a: u128 = 0x67e5504410b1426f9247bb680e5fe0c8;
    let b: u128 = 1;
    assert_eq!(key(a, b), "movereg_67e55044-10b1-426f-9247-bb680e5fe0c8_00000000-0000-0000-0000-000000000001");
    assert_eq!(meta_id_key_regex(b), "movereg_*_00000000-0000-0000-0000-000000000001");
    assert_eq!(move_id_key_regex(a), "movereg_67e55044-10b1-426f-9247-bb680e5fe0c8_*");
    assert_eq!(key(a, b).len(), 81);
}

#[test]
fn flash_upload_dedup() {
    let info = registration(MoveDestination::StorageServer { record_net_disk: Some(RecordNetDisk { file_type: s("t"), kind: s("k")}) }, Some(9));
    match plan_flash_upload(&info, Some(77)).unwrap() {
        FlashUploadPlan::Hit { actions, signal } => {
            assert_eq!(actions.len(), 1);
            assert!(matches!(&actions[0], MoveAction::CreateNetDiskFile(c) if c.meta_id == 77 && c.file_name == "a.txt"));
            assert_eq!(signal.already_id, 77);
            assert_eq!(signal.meta_id, 6);
            assert_eq!(signal.hash, "h");
            assert_eq!(signal.destination, "StorageServer");
        },
        FlashUploadPlan::Miss => panic!("expected a hit"),
    }
    assert!(matches!(plan_flash_upload(&info, None).unwrap(), FlashUploadPlan::Miss));
    let snap = registration(MoveDestination::Snapshot { node_id: 1, timestamp: 2, file_id: 3 }, None);
    assert_eq!(plan_flash_upload(&snap, Some(1)).unwrap_err(), KernelError::MissingUserId);
}

#[test]
fn registered_moves() {
    let snap = registration(MoveDestination::Snapshot { node_id: 1, timestamp: 2, file_id: 3 }, Some(9));
    let a = plan_registered_move(&snap).unwrap();
    assert_eq!(a.len(), 3);
    assert!(matches!(&a[0], MoveAction::CreateSnapshot(r) if r.meta_id == 6 && r.user_id == 9 && r.node_id == 1));
    assert!(matches!(a[2], MoveAction::RemoveRegistrations { meta_id: 6 }));
    let up = registration(MoveDestination::StorageServer { record_net_disk: None }, Some(9));
    let a = plan_registered_move(&up).unwrap();
    assert!(matches!(a[0], MoveAction::SendUpload(c) if c.move_id == 5 && c.user_id == 9));
    let anon = registration(MoveDestination::StorageServer { record_net_disk: None }, None);
    assert_eq!(plan_registered_move(&anon).unwrap_err(), KernelError::MissingUserId);
}

#[test]
fn failure_marking() {
    let infos = vec![registration(MoveDestination::StorageServer { record_net_disk: None }, None)];
    let marked = mark_all_failed(infos, &s("disk full"));
    assert!(marked[0].is_upload_failed);
    assert_eq!(marked[0].failed_reason, Some(s("disk full")));
    assert_eq!(get_meta_id_failed_info(&marked).unwrap(), (true, Some(s("disk full"))));
    assert_eq!(get_meta_id_failed_info(&vec![]).unwrap_err(), KernelError::NoSuchMove);
    assert_eq!(set_move_as_failed(None, &s("x")).unwrap_err(), KernelError::NoSuchMove);
}

#[test]
fn software_queries() {
    let (name, version, args) = deployment_query(&SoftwareSpec::Spack { name: s("vasp"), argument_list: vec![s("@6.1@"), s("+mpi")] });
    assert_eq!(name, "vasp");
    assert_eq!(version, "6.1");
    assert_eq!(args.len(), 2);
    assert_eq!(remove_char(&s("a@b"), '@'), "ab");
    let (name, version, args) = deployment_query(&SoftwareSpec::Singularity { image: s("i"), tag: s("t") });
    assert!(name.is_empty() && version.is_empty() && args.is_empty());
}

#[test]
fn status_machine() {
    assert!(NodeInstanceStatus::Created.can_transition_to(NodeInstanceStatus::Pending));
    assert!(NodeInstanceStatus::Standby.can_transition_to(NodeInstanceStatus::Pending));
    assert!(NodeInstanceStatus::Running.can_transition_to(NodeInstanceStatus::Error));
    assert!(!NodeInstanceStatus::Finished.can_transition_to(NodeInstanceStatus::Error));
    assert!(!NodeInstanceStatus::Created.can_transition_to(NodeInstanceStatus::Running));
    assert!(NodeInstanceStatus::Stopped.is_terminal());
}

#[test]
fn output_paths_and_ids() {
    let mut m = manifest(vec![], vec![InputSlot::Text { descriptor: s("name"), ref_materials: vec![], optional: false }]);
    m.filesome_outputs.push(FilesomeOutput { descriptor: s("a"), file_kind: FileKind::Normal(s("a.out")) });
    m.filesome_outputs.push(FilesomeOutput { descriptor: s("b"), file_kind: FileKind::Normal(s("b.out")) });
    m.usecase_spec.output_slots.push(OutputSlot::File {
        descriptor: s("oa"),
        origin: workflow_kernel::package::FileOutOrigin::UsecaseOut(FileOutAndAppointedBy { file_out_material_descriptor: s("a"), kind: AppointedBy::Material }),
        optional: false,
    });
    m.usecase_spec.output_slots.push(OutputSlot::File {
        descriptor: s("ob"),
        origin: workflow_kernel::package::FileOutOrigin::UsecaseOut(FileOutAndAppointedBy {
            file_out_material_descriptor: s("b"),
            kind: AppointedBy::InputSlot { text_input_descriptor: s("name") },
        }),
        optional: true,
    });
    let n = node(1, "n", vec![text_slot("name", Some(vec![9]), false)], vec![file_out("oa", vec![71]), file_out("ob", vec![72])], vec![]);
    let task = SoftwareComputingUsecaseService::parse_task(&n, &m, &vec![(9, s("renamed.out"))], true, true).unwrap();
    match execution(&task.body) {
        TaskBody::UsecaseExecution { files, .. } => {
            let outs: Vec<(u128, String)> = files
                .iter()
                .filter_map(|f| match f {
                    FileInfo::Output { id, path, .. } => Some((*id, path.clone())),
                    _ => None,
                })
                .collect();
            assert_eq!(outs, vec![(71, s("a.out")), (72, s("renamed.out"))]);
        },
        _ => unreachable!(),
    }
}

#[test]
fn environment_assembly() {
    let mut m = manifest(vec![], vec![InputSlot::Text {
        descriptor: s("x"),
        ref_materials: vec![TextRef::EnvRef { descriptor: s("e"), placeholder_nth: 0 }],
        optional: false,
    }]);
    m.environments.push(Environment { descriptor: s("e"), key: s("OMP"), value_format: s("n{{}}") });
    m.environments.push(Environment { descriptor: s("f"), key: s("FLAG"), value_format: s("on") });
    m.usecase_spec.flag_environments.push(s("f"));
    let n = node(1, "n", vec![text_slot("x", Some(vec![3]), false)], vec![], vec![]);
    let task = SoftwareComputingUsecaseService::parse_task(&n, &m, &vec![(3, s("4"))], true, true).unwrap();
    match execution(&task.body) {
        TaskBody::UsecaseExecution { environments, .. } => {
            assert_eq!(environments, &vec![(s("FLAG"), s("on")), (s("OMP"), s("n4"))]);
        },
        _ => unreachable!(),
    }
}

#[test]
fn software_service_type() {
    let service = SoftwareComputingUsecaseService {};
    assert_eq!(service.get_service_type(), NodeInstanceKind::SoftwareUsecaseComputing);
}

#[test]
fn binding_must_name_a_slot() {
    let mut n = node(1, "n", vec![], vec![], vec![]);
    assert_eq!(n.update_with_inputs(&vec![(s("d"), Input::Text(3))]).unwrap_err(), KernelError::NoSuchSlot);
    let mut n = node(1, "n", vec![text_slot("x", None, false)], vec![], vec![]);
    assert!(n.update_with_inputs(&vec![(s("x"), Input::Text(3))]).is_ok());
    match &n.input_slots[0].kind {
        NodeInputSlotKind::Text { contents, .. } => assert_eq!(contents, &Some(vec![3])),
        _ => panic!("kind changed"),
    }
    let parent = node(1, "n", vec![text_slot("x", None, false)], vec![], vec![]);
    assert_eq!(parent.parse_sub_nodes(&vec![(2u128, vec![(s("y"), Input::Text(3))])]).unwrap_err(), KernelError::NoSuchSlot);
}

#[test]
fn dependency_relations_of_node() {
    let w = fan_out_workflow();
    let rels = w.node_dependency_relations(2);
    assert_eq!(rels.len(), 1);
    assert_eq!(rels[0].from_id, 1);
    assert_eq!(rels[0].slot_relations[0].to_slot, "vin");
    assert!(w.node_dependency_relations(1).is_empty());
}

#[test]
fn input_files_in_task() {
    let m = manifest(vec![], vec![InputSlot::File { descriptor: s("f"), ref_materials: vec![], optional: false }]);
    let file = FileInput { file_metadata_id: 4, file_metadata_name: s("a.dat"), hash: s("h"), size: 1 };
    let n = node(1, "n", vec![NodeInputSlot {
        kind: NodeInputSlotKind::File { contents: Some(vec![file]), expected_file_name: None, is_batch: false },
        optional: false,
        descriptor: s("f"),
        description: None,
    }], vec![], vec![]);
    let task = SoftwareComputingUsecaseService::parse_task(&n, &m, &vec![], true, true).unwrap();
    match execution(&task.body) {
        TaskBody::UsecaseExecution { files, .. } => {
            assert_eq!(files.len(), 1);
            assert!(matches!(&files[0], FileInfo::Input { path, is_package: false, form: workflow_kernel::task::InFileForm::Id(4) } if path == "a.dat"));
        },
        _ => unreachable!(),
    }
}

#[test]
fn rendered_text_routing() {
    let m = manifest(vec![Argument { descriptor: s("a"), value_format: s("-i {{}}") }], vec![]);
    let refs = vec![TextRef::StdIn, TextRef::ArgRef { descriptor: s("a"), sort: 0, placeholder_nth: 0 }];
    let (args, envs, std_in) = route_rendered_text(&m, &refs, &s("x=42")).unwrap();
    assert!(matches!(std_in, StdInKind::Text { ref text } if text == "x=42"));
    assert_eq!(render_format(&args[0].1), "-i x=42");
    assert!(envs.is_empty());
    let chain = vec![TextRef::TemplateRef { descriptor: s("u"), ref_keys: vec![] }];
    assert_eq!(route_rendered_text(&m, &chain, &s("x")).unwrap_err(), KernelError::UnsupportedRefChain);
}

#[test]
fn partial_templates_refused() {
    assert!(is_partial_free(&s("x={{n}} {{#if n}}y{{/if}}")));
    assert!(!is_partial_free(&s("{{> part}}")));
    assert!(!is_partial_free(&s("{{~ #> part}}{{/part}}")));
    assert!(!is_partial_free(&s("{{#*inline \"p\"}}{{> p}}{{/inline}}")));
    let mut m = manifest(
        vec![],
        vec![InputSlot::Text { descriptor: s("n"), ref_materials: vec![TextRef::TemplateRef { descriptor: s("t"), ref_keys: vec![s("n")] }], optional: false }],
    );
    m.usecase_spec.template_files.push(TemplateFile { descriptor: s("t"), as_content: vec![TextRef::StdIn], as_file_name: vec![] });
    m.template_file_infos.push(TemplateFileInfo { descriptor: s("t"), file_name: s("t.in"), content: s("{{#*inline \"p\"}}{{> p}}{{/inline}}{{> p}}") });
    let n = node(1, "n", vec![text_slot("n", Some(vec![4]), false)], vec![], vec![]);
    let r = SoftwareComputingUsecaseService::parse_task(&n, &m, &vec![(4, s("42"))], true, true);
    assert_eq!(r.unwrap_err(), KernelError::UnsupportedRefChain);
    m.template_file_infos.clear();
    let r = SoftwareComputingUsecaseService::parse_task(&n, &m, &vec![(4, s("42"))], true, true);
    assert_eq!(r.unwrap_err(), KernelError::NoSuchMaterial { descriptor: s("t") });
}

#[test]
fn empty_output_path_refused() {
    let mut m = manifest(vec![], vec![]);
    m.filesome_outputs.push(FilesomeOutput { descriptor: s("a"), file_kind: FileKind::Normal(s("")) });
    m.usecase_spec.output_slots.push(OutputSlot::File {
        descriptor: s("oa"),
        origin: workflow_kernel::package::FileOutOrigin::UsecaseOut(FileOutAndAppointedBy { file_out_material_descriptor: s("a"), kind: AppointedBy::Material }),
        optional: false,
    });
    let n = node(1, "n", vec![], vec![file_out("oa", vec![71])], vec![]);
    let r = SoftwareComputingUsecaseService::parse_task(&n, &m, &vec![], true, true);
    assert_eq!(r.unwrap_err(), KernelError::NoSuchMaterial { descriptor: s("a") });
}
