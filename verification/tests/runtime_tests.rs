use causm::ir::{BinaryOperator, UnaryOperator};
use causm::jit::cache::{clear_routine_cache, lookup_compiled_routine, store_compiled_routine, CompiledRoutine, RoutineCache};
use causm::jit::hft::{
    evaluate_elastic_determinism, get_total_lost_cycles, reset_total_lost_cycles, JitterStatus, LostCycles,
    DEFAULT_ELASTIC_JITTER_THRESHOLD_CYCLES,
};
use causm::jit::memory::CausmArray;
use causm::jit::strings::CausmString;
use causm::optimize::fold::{checked_ipow, fold_binary_op, fold_unary_op, SsaConstant};
use causm::plugin::{alloc_buffer, PluginContext};
use causm::text::{push_decimal, push_escaped, push_int};

fn no_float(_op: BinaryOperator, _a: u64, _b: u64) -> Option<SsaConstant> {
    None
}

fn add_floats(op: BinaryOperator, a: u64, b: u64) -> Option<SsaConstant> {
    match op {
        BinaryOperator::Add => Some(SsaConstant::Float((f64::from_bits(a) + f64::from_bits(b)).to_bits())),
        _ => None,
    }
}

#[test]
fn folds_integer_arithmetic() {
    let f = no_float;
    assert_eq!(fold_binary_op(BinaryOperator::Add, &SsaConstant::Int(10), &SsaConstant::Int(5), &f), Some(SsaConstant::Int(15)));
    assert_eq!(fold_binary_op(BinaryOperator::Sub, &SsaConstant::Int(10), &SsaConstant::Int(15), &f), Some(SsaConstant::Int(-5)));
    assert_eq!(fold_binary_op(BinaryOperator::Mul, &SsaConstant::Int(6), &SsaConstant::Int(7), &f), Some(SsaConstant::Int(42)));
    assert_eq!(fold_binary_op(BinaryOperator::Lt, &SsaConstant::Int(1), &SsaConstant::Int(2), &f), Some(SsaConstant::Bool(true)));
    assert_eq!(fold_binary_op(BinaryOperator::Pow, &SsaConstant::Int(2), &SsaConstant::Int(10), &f), Some(SsaConstant::Int(1024)));
}

#[test]
fn division_by_zero_is_not_folded() {
    let f = no_float;
    assert_eq!(fold_binary_op(BinaryOperator::Div, &SsaConstant::Int(1), &SsaConstant::Int(0), &f), None);
    assert_eq!(fold_binary_op(BinaryOperator::Rem, &SsaConstant::Int(1), &SsaConstant::Int(0), &f), None);
}

#[test]
fn folds_strings_and_booleans() {
    let f = no_float;
    assert_eq!(
        fold_binary_op(BinaryOperator::Add, &SsaConstant::Str("ab".to_string()), &SsaConstant::Str("cd".to_string()), &f),
        Some(SsaConstant::Str("abcd".to_string()))
    );
    assert_eq!(fold_binary_op(BinaryOperator::LogicalAnd, &SsaConstant::Bool(true), &SsaConstant::Bool(false), &f), Some(SsaConstant::Bool(false)));
    assert_eq!(fold_binary_op(BinaryOperator::Add, &SsaConstant::Int(1), &SsaConstant::Bool(true), &f), None);
}

#[test]
fn floats_go_to_the_float_folder() {
    let f = add_floats;
    let r = fold_binary_op(BinaryOperator::Add, &SsaConstant::Float(1.5f64.to_bits()), &SsaConstant::Float(2.0f64.to_bits()), &f);
    assert_eq!(r, Some(SsaConstant::Float(3.5f64.to_bits())));
}

#[test]
fn folds_unary_operators() {
    assert_eq!(fold_unary_op(UnaryOperator::Neg, &SsaConstant::Int(5)), Some(SsaConstant::Int(-5)));
    assert_eq!(fold_unary_op(UnaryOperator::Neg, &SsaConstant::Int(i64::MIN)), Some(SsaConstant::Int(i64::MIN)));
    assert_eq!(fold_unary_op(UnaryOperator::Not, &SsaConstant::Bool(true)), Some(SsaConstant::Bool(false)));
    assert_eq!(fold_unary_op(UnaryOperator::BitwiseNot, &SsaConstant::Int(0)), Some(SsaConstant::Int(-1)));
    assert_eq!(fold_unary_op(UnaryOperator::Not, &SsaConstant::Int(0)), None);
}

#[test]
fn checked_power_overflows_to_none() {
    assert_eq!(checked_ipow(3, 4), Some(81));
    assert_eq!(checked_ipow(2, 63), None);
}

#[test]
fn elastic_jitter_accounting() {
    let mut ledger = LostCycles::new();
    let s = evaluate_elastic_determinism(&mut ledger, 100, 90, DEFAULT_ELASTIC_JITTER_THRESHOLD_CYCLES);
    assert_eq!(s, JitterStatus::WithinBudget);
    assert_eq!(get_total_lost_cycles(&ledger), 0);
    let s = evaluate_elastic_determinism(&mut ledger, 400_000, 100_000, DEFAULT_ELASTIC_JITTER_THRESHOLD_CYCLES);
    assert_eq!(s, JitterStatus::ElasticJitterDetected { elapsed_cycles: 400_000, expected_cycles: 100_000, lost_to_void: 300_000 });
    assert_eq!(get_total_lost_cycles(&ledger), 300_000);
    reset_total_lost_cycles(&mut ledger);
    assert_eq!(get_total_lost_cycles(&ledger), 0);
}

#[test]
fn routine_cache_store_lookup_clear() {
    let mut cache = RoutineCache::new();
    assert_eq!(lookup_compiled_routine(&cache, 7), None);
    let rt = CompiledRoutine { code_addr: 0x1000, param_count: 2 };
    store_compiled_routine(&mut cache, 7, rt);
    assert_eq!(lookup_compiled_routine(&cache, 7), Some(rt));
    clear_routine_cache(&mut cache);
    assert_eq!(lookup_compiled_routine(&cache, 7), None);
}

#[test]
fn array_grows_and_reads_back() {
    let mut a = CausmArray::new(0);
    assert_eq!(a.cap, 8);
    for i in 0..9 {
        a.push(i * 10);
    }
    assert_eq!(a.len(), 9);
    assert_eq!(a.cap, 16);
    assert_eq!(a.get(8), 80);
    assert_eq!(a.get(100), 0);
    a.set(0, 5);
    assert_eq!(a.get(0), 5);
    a.set(100, 1);
    assert_eq!(a.len(), 9);
}

#[test]
fn string_operations() {
    let a = CausmString::new(b"Hello, ");
    let b = CausmString::new(b"Causm!");
    let c = CausmString::concat(Some(&a), Some(&b));
    assert_eq!(c.data, b"Hello, Causm!".to_vec());
    assert_eq!(c.len(), 13);
    assert_eq!(CausmString::concat(None, Some(&b)).data, b"Causm!".to_vec());
    assert_eq!(CausmString::slice(Some(&c), 7, 12).data, b"Causm".to_vec());
    assert_eq!(CausmString::slice(Some(&c), -6, -1).data, b"Causm".to_vec());
    assert_eq!(CausmString::slice(Some(&c), 5, 2).data, Vec::<u8>::new());
    assert_eq!(CausmString::slice(None, 0, 3).data, Vec::<u8>::new());
    assert_eq!(c.index(0).data, b"H".to_vec());
    assert_eq!(CausmString::compare(Some(&a), Some(&a)), 1);
    assert_eq!(CausmString::compare(Some(&a), Some(&b)), 0);
    assert_eq!(CausmString::compare(None, None), 1);
    assert_eq!(CausmString::compare(None, Some(&a)), 0);
}

fn context() -> PluginContext {
    PluginContext {
        protocol_version: "1".to_string(),
        compiler_version: "0.1.0".to_string(),
        target_arch: "x86_64".to_string(),
        target_os: "linux".to_string(),
        file_path: "main.csm".to_string(),
        options: vec![("opt".to_string(), "true".to_string()), ("name".to_string(), "x".to_string())],
    }
}

#[test]
fn plugin_context_queries() {
    let ctx = context();
    assert_eq!(ctx.get_option_string("name"), Some("x"));
    assert_eq!(ctx.get_option_string("missing"), None);
    assert_eq!(ctx.get_option_bool("opt"), Some(true));
    assert_eq!(ctx.get_option_bool("name"), None);
    assert!(ctx.is_target_linux());
    assert!(ctx.is_target_arch("x86_64"));
    assert!(!ctx.is_target_arch("aarch64"));
}

#[test]
fn buffer_is_empty_with_room() {
    let b = alloc_buffer(32);
    assert_eq!(b.len(), 0);
    assert!(b.capacity() >= 32);
}

#[test]
fn text_helpers() {
    let mut s = String::new();
    push_decimal(&mut s, 0);
    s.push(' ');
    push_decimal(&mut s, 1234567890123);
    s.push(' ');
    push_int(&mut s, -42);
    s.push(' ');
    push_int(&mut s, i64::MIN);
    assert_eq!(s, "0 1234567890123 -42 -9223372036854775808");
    let mut t = String::new();
    push_escaped(&mut t, "say \"hi\"\nbye");
    assert_eq!(t, "say \\\"hi\\\"\\nbye");
}

#[test]
fn string_as_text() {
    let s = causm::jit::strings::CausmString::new("héllo".as_bytes());
    assert_eq!(s.as_str(), "héllo");
    let bad = causm::jit::strings::CausmString::new(&[0xff, 0xfe]);
    assert_eq!(bad.as_str(), "");
}

#[test]
fn affinity_outcome_quotes_the_error() {
    assert_eq!(causm::jit::hft::affinity_outcome(0, "ignored"), Ok(()));
    assert_eq!(
        causm::jit::hft::affinity_outcome(-1, "Invalid argument (os error 22)"),
        Err("sched_setaffinity failed with errno: Invalid argument (os error 22)".to_string())
    );
}
