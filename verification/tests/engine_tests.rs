use jackal::{
    CheckBool, GameState, ParamsProcessor, Printer, QuantizedAccumulator, QunatisedNetworkLayer, SearchHelpers,
    SearchLimits, SearchStats, SpinOptionInt, UciProcessor, START_FEN,
};

fn strings(args: &[&str]) -> Vec<String> {
    args.iter().map(|s| s.to_string()).collect()
}

#[test]
fn search_stats_counts_iterations() {
    let mut stats = SearchStats::new();
    assert_eq!(stats.iters(), 0);
    stats.add_iteration(4);
    stats.add_iteration(9);
    stats.add_iteration(2);
    assert_eq!(stats.iters(), 3);
    assert_eq!(stats.avg_depth(), 5);
    assert_eq!(stats.max_depth(), 9);
    assert_eq!(stats.time_passed(), 0);
    stats.update_time_passed();
    assert!(stats.time_elapsed_milis() >= stats.time_passed() as u128);
    stats.set_time_passed(1500);
    assert_eq!(stats.time_passed(), 1500);
    stats.set_time_passed((1u128 << 64) + 5);
    assert_eq!(stats.time_passed(), 5);
    assert_eq!(stats.iters(), 3);
}

#[test]
fn search_limits_iterations_and_depth() {
    let mut stats = SearchStats::new();
    stats.add_iteration(3);
    let mut limits = SearchLimits::new(10);
    assert_eq!(limits.game_ply(), 10);
    assert!(!limits.is_limit_reached(&stats));
    limits.add_iters(2);
    assert!(!limits.is_limit_reached(&stats));
    stats.add_iteration(3);
    assert!(limits.is_limit_reached(&stats));
    let mut depth_limits = SearchLimits::new(0);
    depth_limits.add_depth(3);
    assert!(depth_limits.is_limit_reached(&stats));
    depth_limits.add_depth(4);
    assert!(!depth_limits.is_limit_reached(&stats));
    depth_limits.go_infinite();
    depth_limits.add_depth(1);
    assert!(!depth_limits.is_limit_reached(&stats));
}

#[test]
fn search_limits_move_time() {
    let stats = SearchStats::new();
    let mut limits = SearchLimits::new(0);
    limits.add_move_time(0);
    assert!(limits.is_limit_reached(&stats));
    limits.add_move_time(1);
    assert!(!limits.is_limit_reached(&stats));
}

#[test]
fn search_limits_time_management() {
    let stats = SearchStats::new();
    let mut limits = SearchLimits::new(0);
    limits.calculate_time_limits((100, 200));
    assert_eq!(limits.soft_limit(), None);
    assert_eq!(limits.hard_limit(), None);
    assert!(!limits.is_hard_time_limit_reached(&stats, 1000));
    limits.add_time_remaining(60_000);
    limits.add_increment(1_000);
    limits.add_moves_to_go(20);
    assert_eq!(limits.time_remaining(), Some(60_000));
    assert_eq!(limits.increment(), Some(1_000));
    assert_eq!(limits.moves_to_go(), Some(20));
    limits.calculate_time_limits((100, 200));
    assert_eq!(limits.soft_limit(), Some(100));
    assert_eq!(limits.hard_limit(), Some(200));
    assert!(!limits.is_hard_time_limit_reached(&stats, 199));
    assert!(limits.is_hard_time_limit_reached(&stats, 200));
}

#[test]
fn position_states() {
    assert_eq!(SearchHelpers::get_position_state(true, false, 0, 20, false), GameState::Drawn);
    assert_eq!(SearchHelpers::get_position_state(false, true, 0, 20, false), GameState::Drawn);
    assert_eq!(SearchHelpers::get_position_state(false, false, 100, 20, true), GameState::Drawn);
    assert_eq!(SearchHelpers::get_position_state(false, false, 99, 0, true), GameState::Lost(0));
    assert_eq!(SearchHelpers::get_position_state(false, false, 99, 0, false), GameState::Drawn);
    assert_eq!(SearchHelpers::get_position_state(false, false, 99, 1, true), GameState::Unresolved);
}

#[test]
fn check_bool_option() {
    let mut option = CheckBool::new(false);
    assert!(!option.get());
    option.set_value(true);
    assert!(option.get());
    assert!(!option.default_value());
}

#[test]
fn spin_option_range() {
    let mut option = SpinOptionInt::new(32, 1, 131072);
    assert_eq!(option.get(), 32);
    assert!(option.set_value(64));
    assert_eq!(option.get(), 64);
    assert!(!option.set_value(0));
    assert!(!option.set_value(131073));
    assert_eq!(option.get(), 64);
    assert!(option.set_value(131072));
    assert_eq!(option.default_value(), 32);
    assert_eq!((option.min(), option.max()), (1, 131072));
}

#[test]
fn printer_counts_positions() {
    let mut printer = Printer::new(100, 1_000_000, 4);
    assert_eq!(printer.positions(), 100);
    printer.add_position(25);
    printer.add_position(5);
    assert_eq!(printer.positions(), 130);
    assert_eq!(printer.positions_since_last_raport(), 30);
    printer.reset_report_counter();
    assert_eq!(printer.positions_since_last_raport(), 0);
    assert_eq!(printer.positions(), 130);
    assert_eq!(printer.target(), 1_000_000);
    assert_eq!(printer.threads(), 4);
    let _ = printer.elapsed_millis();
}

#[test]
fn params_options_and_bench() {
    let plan = ParamsProcessor::execute(&strings(&["jackal", "--options", "Hash", "64", "Threads", "2"]));
    assert_eq!(plan.option_updates, vec![("Hash".to_string(), "64".to_string()), ("Threads".to_string(), "2".to_string())]);
    assert_eq!(plan.bench_depth, 0);
    let plan = ParamsProcessor::execute(&strings(&["jackal", "bench", "7"]));
    assert_eq!(plan.bench_depth, 7);
    assert!(plan.option_updates.is_empty());
    let plan = ParamsProcessor::execute(&strings(&["jackal", "bench"]));
    assert_eq!(plan.bench_depth, 5);
    let plan = ParamsProcessor::execute(&strings(&["jackal", "bench", "deep"]));
    assert_eq!(plan.bench_depth, 5);
    // bench closes the option list; a dangling option name is dropped
    let plan = ParamsProcessor::execute(&strings(&["jackal", "--options", "Hash", "bench", "3", "Hash", "8"]));
    assert_eq!(plan.bench_depth, 3);
    assert!(plan.option_updates.is_empty());
    // the word after an option name is its value, even "bench"'s depth word
    let plan = ParamsProcessor::execute(&strings(&["jackal", "--options", "MultiPV", "4", "bench", "2", "--options", "Hash", "16"]));
    assert_eq!(plan.bench_depth, 2);
    assert_eq!(plan.option_updates, vec![("MultiPV".to_string(), "4".to_string()), ("Hash".to_string(), "16".to_string())]);
}

#[test]
fn params_depth_default() {
    assert_eq!(ParamsProcessor::depth_or_default(Some(9)), 9);
    assert_eq!(ParamsProcessor::depth_or_default(None), 5);
}

#[test]
fn uci_position_arguments() {
    let (fen, moves) = UciProcessor::position_arguments(&strings(&["startpos", "moves", "e2e4", "e7e5"]));
    assert_eq!(fen, START_FEN);
    assert_eq!(moves, strings(&["e2e4", "e7e5"]));
    let (fen, moves) = UciProcessor::position_arguments(&strings(&["fen", "8/8/8/8/8/8/8/K6k", "w", "-", "-", "0", "1", "moves", "a1a2"]));
    assert_eq!(fen, "8/8/8/8/8/8/8/K6k w - - 0 1 ");
    assert_eq!(moves, strings(&["a1a2"]));
    let (fen, moves) = UciProcessor::position_arguments(&strings(&[]));
    assert_eq!(fen, "");
    assert!(moves.is_empty());
}

#[test]
fn uci_set_option_arguments() {
    assert_eq!(
        UciProcessor::set_option_arguments(&strings(&["name", "Hash", "value", "64"])),
        Some(("Hash".to_string(), "64".to_string()))
    );
    assert_eq!(UciProcessor::set_option_arguments(&strings(&["name", "Hash", "64"])), None);
    assert_eq!(UciProcessor::set_option_arguments(&strings(&["nam", "Hash", "value", "64"])), None);
    assert_eq!(UciProcessor::set_option_arguments(&strings(&["name", "Hash", "val", "64"])), None);
}

#[test]
fn quantized_layers_expose_their_values() {
    let mut acc = QuantizedAccumulator::<i16, 3> { vals: [1, 2, 3] };
    assert_eq!(*acc.values(), [1, 2, 3]);
    acc.values_mut()[1] = 7;
    assert_eq!(acc.vals, [1, 7, 3]);
    let layer = QunatisedNetworkLayer::<i16, 2, 3> { weights: [acc, acc], biases: QuantizedAccumulator { vals: [0, 0, 1] } };
    assert_eq!(layer.weights()[1].vals, [1, 7, 3]);
    assert_eq!(layer.biases().vals, [0, 0, 1]);
}

#[test]
fn params_bench_depth_follows_u32_parse() {
    let depth = |word: &str| ParamsProcessor::execute(&strings(&["jackal", "bench", word])).bench_depth;
    assert_eq!(depth("10"), 10);
    assert_eq!(depth("+7"), 7);
    assert_eq!(depth("007"), 7);
    assert_eq!(depth("-3"), 5);
    assert_eq!(depth("+"), 5);
    assert_eq!(depth("4294967295"), 4294967295);
    assert_eq!(depth("4294967296"), 5);
    assert_eq!(depth("1a"), 5);
}
