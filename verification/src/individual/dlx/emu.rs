//! What the emulator reports of a program that it ran, read from the text of
//! its answer, and the fitness that such a report is worth.

use crate::pattern::{pattern_compiles, pattern_replaced, replace_all};
use crate::text::{
    chars_of, decimal_usize, find_char, find_char_from, hex_i32, matches_text, parse_hex_i32,
    parse_usize, slice_of, string_of, trim_bounds, trimmed,
};
use vstd::prelude::*;

verus! {

/// The number of cycles that a program may take.
pub const CYCLE_BUDGET: usize = 20000;

/// The index of the first word of memory that holds the program's output.
pub const MEMORY_OUTPUT_ADDR: usize = 192;

/// The number of words of memory that hold the program's output.
pub const MEMORY_OUTPUT_SIZE: usize = 32;

/// The index after the last word of memory that holds the program's output.
pub const MEMORY_OUTPUT_ADDR_END: usize = 224;

/// What one run of a program came to.
#[derive(Debug)]
pub struct EmulatorResult {
    pub success: bool,
    pub cycle_count: usize,
    pub unknown: bool,
    pub memory: Option<Vec<i32>>,
}

/// What a run came to: the model that the contracts speak of.
pub struct EmulatorResultView {
    pub success: bool,
    pub cycle_count: int,
    pub unknown: bool,
    pub memory: Option<Seq<i32>>,
}

impl View for EmulatorResult {
    type V = EmulatorResultView;

    open spec fn view(&self) -> EmulatorResultView {
        EmulatorResultView {
            success: self.success,
            cycle_count: self.cycle_count as int,
            unknown: self.unknown,
            memory: match self.memory {
                Some(m) => Some(m@),
                None => None,
            },
        }
    }
}

/// Why a text is no answer of the emulator.
#[derive(Debug, Clone, Copy, PartialEq, Eq, Structural)]
pub enum EmulatorError {
    /// The answer has no second line.
    MissingCycleCount,
    /// The second line is no number.
    InvalidCycleCount,
    /// The pattern of the runs of spaces does not compile.
    Pattern,
    /// The word of the memory dump with this index is no hexadecimal number of
    /// 32 bits.
    InvalidMemoryWord { word: usize },
}

/// The emulator's side of the library: how its answers read.
pub struct Emulator;

/// The words that a correct program leaves in the output part of the memory.
pub open spec fn expected_memory() -> Seq<i32> {
    seq![
        1i32, 3i32, 6i32, 10i32, 15i32, 21i32, 28i32, 36i32,
        45i32, 55i32, 66i32, 78i32, 91i32, 105i32, 120i32, 136i32,
        152i32, 168i32, 184i32, 200i32, 216i32, 232i32, 248i32, 264i32,
        280i32, 296i32, 312i32, 328i32, 344i32, 360i32, 376i32, 392i32,
    ]
}

/// Whether the output part of the memory holds the expected words. A run that
/// reports no memory, or less than the output part takes, does not.
pub open spec fn output_matches(memory: Option<Seq<i32>>) -> bool {
    match memory {
        Some(m) => m.len() >= MEMORY_OUTPUT_ADDR_END && m.subrange(
            MEMORY_OUTPUT_ADDR as int,
            MEMORY_OUTPUT_ADDR_END as int,
        ) == expected_memory(),
        None => false,
    }
}

/// The fitness of a run: zero where it failed or took more cycles than the
/// budget, one where the output is wrong, else the cycles that it left of the
/// budget.
pub open spec fn run_fitness(r: EmulatorResultView) -> int {
    if !r.success || r.cycle_count > CYCLE_BUDGET {
        0
    } else if !output_matches(r.memory) {
        1
    } else {
        CYCLE_BUDGET - r.cycle_count
    }
}

/// The first index at or after `i` that holds a space or a line feed, or the
/// length of `s`.
pub open spec fn find_separator(s: Seq<char>, i: int) -> int
    decreases s.len() - i,
{
    if 0 <= i < s.len() && s[i] != ' ' && s[i] != '\n' {
        find_separator(s, i + 1)
    } else {
        i
    }
}

/// The words of `text` from `i` on: each ends before a space or a line feed, or
/// at the end of the text; a separator at the very end starts no further word.
pub open spec fn split_words(text: Seq<char>, i: int) -> Seq<Seq<char>>
    decreases text.len() - i,
{
    if 0 <= i < text.len() {
        let end = find_separator(text, i);
        if i <= end < text.len() {
            seq![text.subrange(i, end)] + split_words(text, end + 1)
        } else {
            seq![text.skip(i)]
        }
    } else {
        Seq::empty()
    }
}

/// The values of the first `n` words, each read as a hexadecimal number of 32
/// bits; the first word that is none is reported.
pub open spec fn parsed_words(words: Seq<Seq<char>>, n: int) -> Result<Seq<i32>, EmulatorError>
    decreases n,
{
    if n <= 0 {
        Ok(Seq::empty())
    } else {
        match parsed_words(words, n - 1) {
            Ok(values) => match hex_i32(words[n - 1]) {
                Some(v) => Ok(values.push(v as i32)),
                None => Err(EmulatorError::InvalidMemoryWord { word: (n - 1) as usize }),
            },
            Err(e) => Err(e),
        }
    }
}

/// The memory that a dump denotes, once its runs of spaces are single spaces.
pub open spec fn parsed_memory(compressed: Seq<char>) -> Result<Seq<i32>, EmulatorError> {
    let words = split_words(compressed, 0);
    parsed_words(words, words.len() as int)
}

/// The pattern of a run of spaces.
pub open spec fn spaces_pattern() -> Seq<char> {
    " +"@
}

/// Where the second, third and fourth part of an answer start: after the
/// first, second and third line feed. A part that is missing starts beyond the
/// end of the text.
pub open spec fn part_start(text: Seq<char>, part: int) -> int
    decreases part,
{
    if part <= 0 {
        0
    } else {
        let before = part_start(text, part - 1);
        if 0 <= before <= text.len() {
            find_char(text, '\n', before) + 1
        } else {
            before
        }
    }
}

/// One of the first three lines of an answer, if the answer has it.
pub open spec fn header_line(text: Seq<char>, part: int) -> Option<Seq<char>> {
    let start = part_start(text, part);
    if 0 <= start <= text.len() {
        Some(text.subrange(start, find_char(text, '\n', start)))
    } else {
        None
    }
}

/// The memory dump of an answer: what follows its third line feed, if there is
/// one.
pub open spec fn memory_dump(text: Seq<char>) -> Option<Seq<char>> {
    let start = part_start(text, 3);
    if 0 <= start <= text.len() {
        Some(text.skip(start))
    } else {
        None
    }
}

/// What an answer denotes, given its memory dump with the runs of spaces made
/// single spaces.
pub open spec fn parsed_answer(text: Seq<char>, compressed: Seq<char>) -> Result<
    EmulatorResultView,
    EmulatorError,
> {
    match header_line(text, 1) {
        None => Err(EmulatorError::MissingCycleCount),
        Some(second) => match decimal_usize(trimmed(second)) {
            None => Err(EmulatorError::InvalidCycleCount),
            Some(cycles) => {
                let success = header_line(text, 0) == Some("Completed"@);
                let unknown = header_line(text, 2) == Some("True"@);
                if memory_dump(text) is None {
                    Ok(
                        EmulatorResultView {
                            success,
                            cycle_count: cycles,
                            unknown,
                            memory: None,
                        },
                    )
                } else {
                    match parsed_memory(compressed) {
                        Ok(memory) => Ok(
                            EmulatorResultView {
                                success,
                                cycle_count: cycles,
                                unknown,
                                memory: Some(memory),
                            },
                        ),
                        Err(e) => Err(e),
                    }
                }
            },
        },
    }
}

/// Whether an answer has a number of cycles and a memory dump.
pub open spec fn has_memory_dump(text: Seq<char>) -> bool {
    &&& header_line(text, 1) matches Some(second) && decimal_usize(trimmed(second)) is Some
    &&& memory_dump(text) is Some
}

/// What an answer of the emulator denotes. Where it has a memory dump and the
/// pattern of the runs of spaces does not compile, the error is `Pattern`.
pub open spec fn answer_of(text: Seq<char>) -> Result<EmulatorResultView, EmulatorError> {
    if has_memory_dump(text) && !pattern_compiles(spaces_pattern()) {
        Err(EmulatorError::Pattern)
    } else {
        parsed_answer(
            text,
            match memory_dump(text) {
                Some(dump) => pattern_replaced(spaces_pattern(), dump, " "@),
                None => Seq::empty(),
            },
        )
    }
}

/// `text` with its runs of spaces made single spaces, or the error `Pattern`
/// where the pattern of the runs of spaces does not compile.
pub open spec fn compressed(text: Seq<char>) -> Result<Seq<char>, EmulatorError> {
    if pattern_compiles(spaces_pattern()) {
        Ok(pattern_replaced(spaces_pattern(), text, " "@))
    } else {
        Err(EmulatorError::Pattern)
    }
}

/// The model of a result that holds a run.
pub open spec fn answer_view(r: Result<EmulatorResult, EmulatorError>) -> Result<
    EmulatorResultView,
    EmulatorError,
> {
    match r {
        Ok(a) => Ok(a@),
        Err(e) => Err(e),
    }
}

/// Computes `find_separator`.
fn next_separator(v: &Vec<char>, from: usize) -> (i: usize)
    requires
        from <= v.len(),
    ensures
        from <= i <= v.len(),
        i == find_separator(v@, from as int),
{
    let mut i: usize = from;
    while i < v.len() && v[i] != ' ' && v[i] != '\n'
        invariant
            from <= i <= v.len(),
            find_separator(v@, from as int) == find_separator(v@, i as int),
        decreases v.len() - i,
    {
        i += 1;
    }
    i
}

/// Once a word is in error, so is every longer part of the dump, with the same
/// error.
pub proof fn lemma_word_error_stays(words: Seq<Seq<char>>, n: int, m: int)
    requires
        n <= m,
        parsed_words(words, n) is Err,
    ensures
        parsed_words(words, m) == parsed_words(words, n),
    decreases m - n,
{
    if n < m {
        lemma_word_error_stays(words, n, m - 1);
    }
}

/// The model of a result that holds a memory.
pub open spec fn memory_view(r: Result<Vec<i32>, EmulatorError>) -> Result<
    Seq<i32>,
    EmulatorError,
> {
    match r {
        Ok(m) => Ok(m@),
        Err(e) => Err(e),
    }
}

/// The words that a correct program leaves in the output part of the memory.
pub fn expected_words() -> (v: Vec<i32>)
    ensures
        v@ == expected_memory(),
{
    let v = vec![
        1i32, 3i32, 6i32, 10i32, 15i32, 21i32, 28i32, 36i32,
        45i32, 55i32, 66i32, 78i32, 91i32, 105i32, 120i32, 136i32,
        152i32, 168i32, 184i32, 200i32, 216i32, 232i32, 248i32, 264i32,
        280i32, 296i32, 312i32, 328i32, 344i32, 360i32, 376i32, 392i32,
    ];
    assert(v@ =~= expected_memory());
    v
}

impl EmulatorResult {
    /// The fitness of the run.
    pub fn fitness(&self) -> (f: i64)
        ensures
            f == run_fitness(self@),
            0 <= f <= CYCLE_BUDGET,
    {
        if !self.success || self.cycle_count > CYCLE_BUDGET {
            return 0;
        }
        let memory = match &self.memory {
            Some(memory) => memory,
            None => {
                return 1;
            },
        };
        if memory.len() < MEMORY_OUTPUT_ADDR_END {
            return 1;
        }
        let expected = expected_words();
        let ghost window = memory@.subrange(
            MEMORY_OUTPUT_ADDR as int,
            MEMORY_OUTPUT_ADDR_END as int,
        );
        let mut i: usize = 0;
        while i < MEMORY_OUTPUT_SIZE
            invariant
                i <= MEMORY_OUTPUT_SIZE,
                self.success,
                self.cycle_count <= CYCLE_BUDGET,
                self.memory == Some(*memory),
                memory.len() >= MEMORY_OUTPUT_ADDR_END,
                expected@ == expected_memory(),
                window == memory@.subrange(MEMORY_OUTPUT_ADDR as int, MEMORY_OUTPUT_ADDR_END as int),
                forall|k: int| 0 <= k < i ==> window[k] == expected@[k],
            decreases MEMORY_OUTPUT_SIZE - i,
        {
            if memory[MEMORY_OUTPUT_ADDR + i] != expected[i] {
                assert(window[i as int] != expected@[i as int]);
                return 1;
            }
            i += 1;
        }
        assert(window =~= expected_memory());
        (CYCLE_BUDGET - self.cycle_count) as i64
    }
}

impl Emulator {
    /// What stands for a run of which the emulator gave no answer: a failure
    /// after no cycle, without memory.
    pub fn failed() -> (r: EmulatorResult)
        ensures
            r@ == (EmulatorResultView {
                success: false,
                cycle_count: 0,
                unknown: false,
                memory: None,
            }),
            run_fitness(r@) == 0,
    {
        EmulatorResult { success: false, cycle_count: 0, unknown: false, memory: None }
    }

    /// What a run of the emulator came to: where the emulator did not succeed,
    /// a failure; else what its output reads as.
    pub fn result_of(succeeded: bool, output: &str) -> (r: Result<EmulatorResult, EmulatorError>)
        ensures
            answer_view(r) == if succeeded {
                answer_of(output@)
            } else {
                Ok(
                    EmulatorResultView {
                        success: false,
                        cycle_count: 0,
                        unknown: false,
                        memory: None,
                    },
                )
            },
    {
        if succeeded {
            Emulator::parse_emu_output(output)
        } else {
            Ok(Emulator::failed())
        }
    }

    /// Makes single spaces of the runs of spaces in `s`.
    pub fn compress_spaces(s: &str) -> (r: Result<String, EmulatorError>)
        ensures
            match r {
                Ok(c) => compressed(s@) == Ok::<Seq<char>, EmulatorError>(c@),
                Err(e) => compressed(s@) == Err::<Seq<char>, EmulatorError>(e),
            },
    {
        match replace_all(" +", s, " ") {
            Ok(c) => Ok(c),
            Err(_) => Err(EmulatorError::Pattern),
        }
    }

    /// Reads a memory dump whose words stand one space or one line feed apart:
    /// each word is a hexadecimal number of 32 bits.
    pub fn parse_memory(compressed: &str) -> (r: Result<Vec<i32>, EmulatorError>)
        ensures
            memory_view(r) == parsed_memory(compressed@),
    {
        let chars = chars_of(compressed);
        let ghost words = split_words(chars@, 0);
        let mut memory: Vec<i32> = Vec::new();
        let mut start: usize = 0;
        assert(words.skip(0) =~= words);
        while start < chars.len()
            invariant
                start <= chars.len(),
                chars@ == compressed@,
                words == split_words(chars@, 0),
                memory.len() <= words.len(),
                split_words(chars@, start as int) == words.skip(memory.len() as int),
                parsed_words(words, memory.len() as int) == Ok::<Seq<i32>, EmulatorError>(memory@),
            decreases chars.len() - start,
        {
            let n = memory.len();
            let end = next_separator(&chars, start);
            let next = if end < chars.len() { end + 1 } else { end };
            let ghost word = chars@.subrange(start as int, end as int);
            proof {
                if end == chars.len() {
                    assert(chars@.skip(start as int) =~= word);
                }
                assert(split_words(chars@, start as int) =~= seq![word] + split_words(
                    chars@,
                    next as int,
                ));
                assert(words.skip(n as int).len() > 0);
                assert(words.skip(n as int)[0] == word);
                assert(words[n as int] == word);
            }
            match parse_hex_i32(&chars, start, end) {
                Some(value) => {
                    memory.push(value);
                },
                None => {
                    proof {
                        assert(parsed_words(words, n + 1) == Err::<Seq<i32>, EmulatorError>(
                            EmulatorError::InvalidMemoryWord { word: n },
                        ));
                        lemma_word_error_stays(words, n + 1, words.len() as int);
                    }
                    return Err(EmulatorError::InvalidMemoryWord { word: n });
                },
            }
            assert(words.skip(n as int).skip(1) =~= words.skip(n + 1));
            assert(split_words(chars@, next as int) =~= words.skip(n as int).skip(1));
            start = next;
        }
        assert(memory.len() == words.len());
        Ok(memory)
    }

    /// Reads an answer of the emulator: `Completed` on the first line for a run
    /// that succeeded, the number of cycles on the second, `True` on the third
    /// for the flag, and then, if anything follows, the memory dump.
    pub fn parse_emu_output(output: &str) -> (r: Result<EmulatorResult, EmulatorError>)
        ensures
            answer_view(r) == answer_of(output@),
    {
        let chars = chars_of(output);
        let len = chars.len();
        assert(chars@.take(len as int).skip(0) =~= chars@);
        let first_end = find_char_from(&chars, '\n', 0, len);
        let success = matches_text(&chars, 0, first_end, "Completed");
        assert(part_start(chars@, 0) == 0);
        assert(part_start(chars@, 1) == first_end + 1);
        assert(header_line(chars@, 0) == Some(chars@.subrange(0, first_end as int)));
        if first_end == len {
            return Err(EmulatorError::MissingCycleCount);
        }
        let second = first_end + 1;
        let second_end = find_char_from(&chars, '\n', second, len);
        let line = slice_of(&chars, second, second_end);
        assert(header_line(chars@, 1) == Some(line@));
        let (from, to) = trim_bounds(&line);
        let cycle_count = match parse_usize(&line, from, to) {
            Some(cycle_count) => cycle_count,
            None => {
                return Err(EmulatorError::InvalidCycleCount);
            },
        };
        assert(part_start(chars@, 2) == second_end + 1);
        if second_end == len {
            assert(part_start(chars@, 3) == second_end + 1);
            assert(header_line(chars@, 2) is None);
            assert(memory_dump(chars@) is None);
            return Ok(EmulatorResult { success, cycle_count, unknown: false, memory: None });
        }
        let third = second_end + 1;
        let third_end = find_char_from(&chars, '\n', third, len);
        let unknown = matches_text(&chars, third, third_end, "True");
        assert(header_line(chars@, 2) == Some(chars@.subrange(third as int, third_end as int)));
        assert(part_start(chars@, 3) == third_end + 1);
        if third_end == len {
            assert(memory_dump(chars@) is None);
            return Ok(EmulatorResult { success, cycle_count, unknown, memory: None });
        }
        let dump = string_of(&chars, third_end + 1, len);
        assert(dump@ =~= chars@.skip(third_end + 1));
        assert(memory_dump(chars@) == Some(dump@));
        let compressed = match Emulator::compress_spaces(dump.as_str()) {
            Ok(compressed) => compressed,
            Err(e) => {
                return Err(e);
            },
        };
        match Emulator::parse_memory(compressed.as_str()) {
            Ok(memory) => Ok(EmulatorResult { success, cycle_count, unknown, memory: Some(memory) }),
            Err(e) => Err(e),
        }
    }
}

} // verus!
