use gen_alg::individual::dlx::emu::{Emulator, EmulatorError, EmulatorResult};

fn expected_window() -> Vec<i32> {
    vec![
        1, 3, 6, 10, 15, 21, 28, 36, 45, 55, 66, 78, 91, 105, 120, 136, 152, 168, 184, 200, 216,
        232, 248, 264, 280, 296, 312, 328, 344, 360, 376, 392,
    ]
}

fn memory_with_window(window: &[i32]) -> Vec<i32> {
    let mut memory = vec![0; 192];
    memory.extend_from_slice(window);
    memory.extend_from_slice(&[7, 7, 7]);
    memory
}

#[test]
fn answer_with_memory_parses() {
    let result = Emulator::parse_emu_output("Completed\n120\nTrue\n01 02 03\n").unwrap();
    assert!(result.success);
    assert_eq!(result.cycle_count, 120);
    assert!(result.unknown);
    assert_eq!(result.memory, Some(vec![1, 2, 3]));
}

#[test]
fn answer_that_did_not_complete_is_a_failure() {
    let result = Emulator::parse_emu_output("Crashed\n120\nTrue\n01 02 03\n").unwrap();
    assert!(!result.success);
    assert_eq!(result.cycle_count, 120);
    assert!(result.unknown);
    assert_eq!(result.memory, Some(vec![1, 2, 3]));
    let result = Emulator::parse_emu_output("completed\n5\nFalse").unwrap();
    assert!(!result.success);
    assert!(!result.unknown);
    assert_eq!(result.memory, None);
    let result = Emulator::parse_emu_output(" Completed\n5\nTrue").unwrap();
    assert!(!result.success);
    assert_eq!(result.fitness(), 0);
}

#[test]
fn answer_without_memory() {
    let result = Emulator::parse_emu_output("Completed\n 77 \nTrue").unwrap();
    assert!(result.success);
    assert_eq!(result.cycle_count, 77);
    assert!(result.unknown);
    assert_eq!(result.memory, None);
    let result = Emulator::parse_emu_output("Completed\n+9").unwrap();
    assert_eq!(result.cycle_count, 9);
    assert!(!result.unknown);
    assert_eq!(result.memory, None);
    let result = Emulator::parse_emu_output("Completed\n3\nTrue\n").unwrap();
    assert_eq!(result.memory, Some(vec![]));
    let result = Emulator::parse_emu_output("Completed\n3\nTrue \n").unwrap();
    assert!(!result.unknown);
}

#[test]
fn memory_words_are_hexadecimal_and_runs_of_spaces_count_once() {
    let result =
        Emulator::parse_emu_output("Completed\n1\nTrue\nff   10\n7fffffff    -80000000 a\nB")
            .unwrap();
    assert_eq!(
        result.memory,
        Some(vec![255, 16, i32::MAX, i32::MIN, 10, 11])
    );
    assert_eq!(
        Emulator::compress_spaces("a   b  c d").unwrap(),
        "a b c d"
    );
    assert_eq!(Emulator::parse_memory("1 2\n3").unwrap(), vec![1, 2, 3]);
    assert_eq!(Emulator::parse_memory("").unwrap(), Vec::<i32>::new());
}

#[test]
fn malformed_answers_are_errors() {
    assert_eq!(
        Emulator::parse_emu_output("Completed").err(),
        Some(EmulatorError::MissingCycleCount)
    );
    assert_eq!(
        Emulator::parse_emu_output("").err(),
        Some(EmulatorError::MissingCycleCount)
    );
    assert_eq!(
        Emulator::parse_emu_output("Completed\nmany\nTrue").err(),
        Some(EmulatorError::InvalidCycleCount)
    );
    assert_eq!(
        Emulator::parse_emu_output("Completed\n\nTrue").err(),
        Some(EmulatorError::InvalidCycleCount)
    );
    assert_eq!(
        Emulator::parse_emu_output("Completed\n-1\nTrue").err(),
        Some(EmulatorError::InvalidCycleCount)
    );
    assert_eq!(
        Emulator::parse_emu_output("Completed\n99999999999999999999999999\nTrue").err(),
        Some(EmulatorError::InvalidCycleCount)
    );
    assert_eq!(
        Emulator::parse_emu_output("Completed\n1\nTrue\n01 0g 03").err(),
        Some(EmulatorError::InvalidMemoryWord { word: 1 })
    );
    assert_eq!(
        Emulator::parse_emu_output("Completed\n1\nTrue\n01 \n03").err(),
        Some(EmulatorError::InvalidMemoryWord { word: 1 })
    );
    assert_eq!(
        Emulator::parse_emu_output("Completed\n1\nTrue\n80000000").err(),
        Some(EmulatorError::InvalidMemoryWord { word: 0 })
    );
    assert_eq!(
        Emulator::parse_memory("1  2").err(),
        Some(EmulatorError::InvalidMemoryWord { word: 1 })
    );
}

#[test]
fn too_many_cycles_are_worth_nothing() {
    let result = EmulatorResult {
        success: true,
        cycle_count: 25000,
        unknown: true,
        memory: Some(memory_with_window(&expected_window())),
    };
    assert_eq!(result.fitness(), 0);
    let wrong = EmulatorResult {
        success: true,
        cycle_count: 25000,
        unknown: true,
        memory: None,
    };
    assert_eq!(wrong.fitness(), 0);
    let just_over = EmulatorResult {
        success: true,
        cycle_count: 20001,
        unknown: true,
        memory: Some(memory_with_window(&expected_window())),
    };
    assert_eq!(just_over.fitness(), 0);
}

#[test]
fn wrong_output_is_worth_one() {
    let mut window = expected_window();
    window[31] = 393;
    let result = EmulatorResult {
        success: true,
        cycle_count: 120,
        unknown: true,
        memory: Some(memory_with_window(&window)),
    };
    assert_eq!(result.fitness(), 1);
    let short = EmulatorResult {
        success: true,
        cycle_count: 120,
        unknown: true,
        memory: Some(vec![1, 2, 3]),
    };
    assert_eq!(short.fitness(), 1);
    let none = EmulatorResult {
        success: true,
        cycle_count: 120,
        unknown: false,
        memory: None,
    };
    assert_eq!(none.fitness(), 1);
}

#[test]
fn right_output_is_worth_the_cycles_left() {
    let result = EmulatorResult {
        success: true,
        cycle_count: 6257,
        unknown: true,
        memory: Some(memory_with_window(&expected_window())),
    };
    assert_eq!(result.fitness(), 13743);
    let at_budget = EmulatorResult {
        success: true,
        cycle_count: 20000,
        unknown: true,
        memory: Some(memory_with_window(&expected_window())),
    };
    assert_eq!(at_budget.fitness(), 0);
    let failed = EmulatorResult {
        success: false,
        cycle_count: 6257,
        unknown: true,
        memory: Some(memory_with_window(&expected_window())),
    };
    assert_eq!(failed.fitness(), 0);
}

#[test]
fn a_run_that_did_not_succeed_is_a_failure_whatever_it_wrote() {
    let failed = Emulator::result_of(false, "Completed\n120\nTrue\n01 02 03\n").unwrap();
    assert!(!failed.success);
    assert_eq!(failed.cycle_count, 0);
    assert!(!failed.unknown);
    assert_eq!(failed.memory, None);
    assert_eq!(failed.fitness(), 0);
    let failed = Emulator::result_of(false, "").unwrap();
    assert_eq!(failed.fitness(), 0);
    let read = Emulator::result_of(true, "Completed\n120\nTrue\n01 02 03\n").unwrap();
    assert!(read.success);
    assert_eq!(read.cycle_count, 120);
    assert_eq!(read.memory, Some(vec![1, 2, 3]));
    assert_eq!(
        Emulator::result_of(true, "").err(),
        Some(EmulatorError::MissingCycleCount)
    );
    let none = Emulator::failed();
    assert!(!none.success);
    assert_eq!(none.fitness(), 0);
}

#[test]
fn whitespace_around_the_cycle_count_is_taken_off() {
    let result = Emulator::parse_emu_output("Completed\n\t 42\r\nTrue").unwrap();
    assert_eq!(result.cycle_count, 42);
    assert_eq!(
        Emulator::parse_emu_output("Completed\n4 2\nTrue").err(),
        Some(EmulatorError::InvalidCycleCount)
    );
}
