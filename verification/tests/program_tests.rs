use causm::instruction::Instruction;
use causm::ir::{IrSelectCase, Reg, TypeName};
use causm::ir::BinaryOperator;
use causm::optimize::fold::SsaConstant;
use causm::optimize::pipeline::{note_read_before_defined, optimize_instructions, ssa_of_instructions};
use causm::optimize::PassManager;
use causm::program::{
    collect_globally_referenced_channels, optimize_program, prune_import_duplicates, prune_unreachable_routines,
    IrBlock, IrProgram, IrRoutine, Span, TimeCoordinate,
};
use std::collections::HashSet;

fn no_float_folding(_op: BinaryOperator, _a: u64, _b: u64) -> Option<SsaConstant> {
    None
}

fn call(name: &str) -> Instruction {
    Instruction::Call { routine: name.to_string(), args: vec![], dest: Reg(0) }
}

fn dyn_call(method: &str) -> Instruction {
    Instruction::DynamicCall { method: method.to_string(), args: vec![], dest: Reg(0), budget: None }
}

fn routine(instructions: Vec<Instruction>) -> IrRoutine {
    IrRoutine {
        params: vec![],
        return_type: TypeName { text: "void".to_string() },
        taking_ms: None,
        foreign_binding: None,
        spans: vec![None; instructions.len()],
        instructions,
    }
}

fn block(instructions: Vec<Instruction>) -> IrBlock {
    IrBlock {
        time: TimeCoordinate { text: "0".to_string() },
        entropy_mode: None,
        spans: vec![None; instructions.len()],
        instructions,
    }
}

fn program(blocks: Vec<IrBlock>, routines: Vec<(&str, IrRoutine)>) -> IrProgram {
    IrProgram {
        blocks,
        routines: routines.into_iter().map(|(n, r)| (n.to_string(), r)).collect(),
        symbols: vec![],
        type_decay_limits: vec![],
        auto_drop_specs: vec![],
        struct_extends: vec![],
        decay_handlers: vec![],
    }
}

fn names(ir: &IrProgram) -> Vec<String> {
    ir.routines.iter().map(|(n, _)| n.clone()).collect()
}

#[test]
fn prune_keeps_what_the_timeline_reaches() {
    let mut ir = program(
        vec![block(vec![call("main")])],
        vec![
            ("main", routine(vec![call("helper")])),
            ("helper", routine(vec![Instruction::Return { src: None }])),
            ("orphan", routine(vec![call("helper")])),
            ("lib.greet", routine(vec![call("deep")])),
            ("deep", routine(vec![])),
        ],
    );
    prune_unreachable_routines(&mut ir);
    assert_eq!(names(&ir), vec!["main".to_string(), "helper".to_string()]);
}

#[test]
fn prune_follows_dynamic_calls_by_method_name() {
    let mut ir = program(
        vec![block(vec![dyn_call("greet")])],
        vec![
            ("lib.greet", routine(vec![call("deep")])),
            ("greet", routine(vec![])),
            ("deep", routine(vec![])),
            ("greeting", routine(vec![])),
            ("xgreet", routine(vec![])),
        ],
    );
    prune_unreachable_routines(&mut ir);
    assert_eq!(names(&ir), vec!["lib.greet".to_string(), "greet".to_string(), "deep".to_string()]);
}

#[test]
fn prune_leaves_programs_without_timeline_alone() {
    let mut ir = program(vec![], vec![("a", routine(vec![])), ("b", routine(vec![]))]);
    let before = ir.clone();
    prune_unreachable_routines(&mut ir);
    assert_eq!(ir, before);
}

#[test]
fn prune_twice_is_prune_once() {
    let mut ir = program(
        vec![block(vec![call("a")])],
        vec![("a", routine(vec![call("b")])), ("b", routine(vec![call("a")])), ("c", routine(vec![]))],
    );
    prune_unreachable_routines(&mut ir);
    let once = ir.clone();
    prune_unreachable_routines(&mut ir);
    assert_eq!(ir, once);
}

#[test]
fn channels_are_collected_from_every_part() {
    let mut ir = program(
        vec![block(vec![Instruction::ChanSend { chan_id: "tx".to_string(), src: Reg(1) }])],
        vec![(
            "r",
            routine(vec![
                Instruction::Select {
                    max_ms: 5,
                    cases: vec![
                        IrSelectCase { chan_id: "a".to_string(), dest: Reg(0), target: 0 },
                        IrSelectCase { chan_id: "tx".to_string(), dest: Reg(0), target: 0 },
                    ],
                    timeout_target: None,
                },
                Instruction::LoopTickOn { chan_id: "tick".to_string() },
            ]),
        )],
    );
    ir.decay_handlers.push(("h".to_string(), vec![Instruction::AwaitChan { chan_id: "done".to_string() }]));
    let chans = collect_globally_referenced_channels(&ir);
    assert_eq!(chans, vec!["tx".to_string(), "a".to_string(), "tick".to_string(), "done".to_string()]);
}

#[test]
fn import_duplicates_are_folded_into_the_namespaced_routine() {
    let mut ir = program(
        vec![block(vec![call("greet"), call("other")])],
        vec![
            ("lib.greet", routine(vec![Instruction::Return { src: None }])),
            ("greet", routine(vec![Instruction::Return { src: None }])),
            ("other", routine(vec![call("greet")])),
            ("ffi", routine(vec![])),
        ],
    );
    prune_import_duplicates(&mut ir);
    assert_eq!(ir.blocks[0].instructions, vec![call("lib.greet"), call("other")]);
    assert_eq!(names(&ir), vec!["lib.greet".to_string(), "other".to_string()]);
    assert_eq!(ir.routines[1].1.instructions, vec![call("lib.greet")]);
}

#[test]
fn foreign_declarations_keep_their_calls() {
    let mut ir = program(
        vec![block(vec![call("puts")])],
        vec![("c.puts", routine(vec![Instruction::Return { src: None }])), ("puts", routine(vec![]))],
    );
    prune_import_duplicates(&mut ir);
    // `puts` is a bare declaration: calls keep their name, and the empty stub goes.
    assert_eq!(ir.blocks[0].instructions, vec![call("puts")]);
    assert_eq!(names(&ir), vec!["c.puts".to_string()]);
}

#[test]
fn pipeline_round_trip_of_a_routine_body() {
    let instrs = vec![Instruction::LoadInt { dest: Reg(0), value: 1 }, Instruction::Return { src: Some(Reg(0)) }];
    let out = optimize_instructions(&instrs, &PassManager::new(), false, &HashSet::new()).unwrap();
    // The empty block after the return is unreachable and goes.
    assert_eq!(out, instrs);
    let empty: Vec<Instruction> = vec![];
    assert_eq!(optimize_instructions(&empty, &PassManager::new(), false, &HashSet::new()), Some(vec![]));
}

#[test]
fn pipeline_rejects_indices_out_of_range() {
    let instrs = vec![Instruction::Speculate { max_ms: 5, fallback_target: 40 }];
    assert_eq!(optimize_instructions(&instrs, &PassManager::new(), false, &HashSet::new()), None);
}

#[test]
fn registers_read_before_their_definition() {
    let instrs = vec![
        Instruction::BinaryOp { dest: Reg(2), op: BinaryOperator::Add, left: Reg(0), right: Reg(1) },
        Instruction::LoadInt { dest: Reg(1), value: 3 },
        Instruction::Move { dest: Reg(3), src: Reg(1) },
        Instruction::Return { src: Some(Reg(4)) },
    ];
    let ssa = ssa_of_instructions(&instrs).unwrap();
    let mut acc: HashSet<u32> = HashSet::new();
    acc.insert(9);
    note_read_before_defined(&ssa, &mut acc);
    let expected: HashSet<u32> = [0, 1, 4, 9].into_iter().collect();
    assert_eq!(acc, expected);
}

#[test]
fn optimize_program_prunes_and_keeps_shape() {
    let ir = program(
        vec![block(vec![
            Instruction::LoadInt { dest: Reg(0), value: 2 },
            Instruction::LoadInt { dest: Reg(1), value: 3 },
            Instruction::BinaryOp { dest: Reg(2), op: BinaryOperator::Add, left: Reg(0), right: Reg(1) },
            Instruction::Print { src: Reg(2) },
            call("main"),
        ])],
        vec![
            ("main", routine(vec![Instruction::LoadInt { dest: Reg(0), value: 1 }, Instruction::Return { src: Some(Reg(0)) }])),
            ("unused", routine(vec![Instruction::Return { src: None }])),
        ],
    );
    let out = optimize_program(ir, no_float_folding).unwrap();
    assert_eq!(names(&out), vec!["main".to_string()]);
    assert_eq!(
        out.routines[0].1.instructions,
        vec![Instruction::LoadInt { dest: Reg(0), value: 1 }, Instruction::Return { src: Some(Reg(0)) }]
    );
    assert_eq!(out.blocks.len(), 1);
    // The addition of two constants is folded into a constant.
    assert!(out.blocks[0].instructions.iter().any(|i| matches!(
        i,
        Instruction::LoadInt { value: 5, .. } | Instruction::ConstInt { value: 5, .. }
    )));
}

#[test]
fn program_listing_numbers_instructions() {
    let mut r = routine(vec![Instruction::Return { src: None }]);
    r.taking_ms = Some(5);
    r.spans = vec![Some(Span { start: 3, end: 9 })];
    let mut ir = program(vec![block(vec![Instruction::Break, Instruction::Collapse])], vec![("main", r)]);
    ir.blocks[0].time = TimeCoordinate { text: "t0".to_string() };
    assert_eq!(
        ir.display_text(),
        "routine main taking Some(5)ms:\n    0: Return { src: None } // span: 3-9\n@t0:\n    0: Break\n    1: Collapse\n"
    );
}

#[test]
fn prune_follows_dynamic_calls_inside_reached_routines() {
    let mut ir = program(
        vec![block(vec![call("main")])],
        vec![
            ("main", routine(vec![dyn_call("render")])),
            ("ui.render", routine(vec![call("paint")])),
            ("paint", routine(vec![])),
            ("unused", routine(vec![])),
        ],
    );
    prune_unreachable_routines(&mut ir);
    assert_eq!(names(&ir), vec!["main".to_string(), "ui.render".to_string(), "paint".to_string()]);
}
