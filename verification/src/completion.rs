//! Cleaning of inline shell completions returned by the recommendation
//! service, and what the request handler does with the cleaned ones.
use vstd::prelude::*;

use crate::pattern::{
    compile_pattern,
    remove_first_match,
    regex_accepts_pattern,
    regex_remove_first_match,
    CompiledPattern,
};
use crate::text::{
    is_blank,
    first_line,
    first_line_str,
    decimal,
    is_whitespace,
    push_decimal,
    string_from_chars,
    trim_end,
    trim_end_str,
    lemma_first_line_shape,
    lemma_trim_end_shape,
};

verus! {

/// How many history entries a prompt holds when the environment does not say.
pub const HISTORY_COUNT_DEFAULT: usize = 49;

/// The regex `{number}\s+.*`: the line number `number` followed by
/// whitespace and the rest of the line, as the model writes a numbered
/// history line that it should not have produced.
pub open spec fn line_number_pattern(number: int) -> Seq<char> {
    decimal(number as nat) + seq!['\\', 's', '+', '.', '*']
}

/// What cleaning a response gives when prompts hold `history_count`
/// entries: its first line, without the first match of the patterns for
/// the next two line numbers, without trailing whitespace.
pub open spec fn cleaned(history_count: int, response: Seq<char>) -> Seq<char> {
    trim_end(
        regex_remove_first_match(
            line_number_pattern(history_count + 2),
            regex_remove_first_match(line_number_pattern(history_count + 1), first_line(response)),
        ),
    )
}

/// Cleaning drops only trailing whitespace from what is left after the
/// two pattern removals: the cleaned text is a prefix of that text, the
/// rest of it is whitespace, and the cleaned text ends in a non-space. In
/// particular, when the removals leave only whitespace (a response that is
/// nothing but the listing's continuation), nothing is suggested.
pub proof fn law_cleaning_only_trims_what_is_left(history_count: int, response: Seq<char>)
    ensures
        ({
            let left = regex_remove_first_match(
                line_number_pattern(history_count + 2),
                regex_remove_first_match(line_number_pattern(history_count + 1), first_line(response)),
            );
            let c = cleaned(history_count, response);
            &&& c.is_prefix_of(left)
            &&& is_blank(left.skip(c.len() as int))
            &&& c.len() == 0 || !is_whitespace(c.last())
            &&& is_blank(left) ==> c.len() == 0
        }),
{
    let left = regex_remove_first_match(
        line_number_pattern(history_count + 2),
        regex_remove_first_match(line_number_pattern(history_count + 1), first_line(response)),
    );
    lemma_trim_end_shape(left);
    let c = trim_end(left);
    if is_blank(left) && c.len() > 0 {
        assert(c.last() == left[c.len() - 1]);
    }
}

/// The line-number pattern is the decimal number followed by `\s+.*`:
/// the number's digits, then exactly those five pattern characters.
pub proof fn law_line_number_pattern_layout(number: nat)
    ensures
        line_number_pattern(number as int).take(decimal(number).len() as int) == decimal(number),
        line_number_pattern(number as int).skip(decimal(number).len() as int) == seq![
            '\\',
            's',
            '+',
            '.',
            '*',
        ],
{
    let p = line_number_pattern(number as int);
    assert(p.take(decimal(number).len() as int) =~= decimal(number));
    assert(p.skip(decimal(number).len() as int) =~= seq!['\\', 's', '+', '.', '*']);
}

/// The text of `line_number_pattern(number)`.
pub fn line_number_pattern_string(number: usize) -> (res: String)
    ensures
        res@ == line_number_pattern(number as int),
{
    let mut cs: Vec<char> = Vec::new();
    push_decimal(&mut cs, number);
    cs.push('\\');
    cs.push('s');
    cs.push('+');
    cs.push('.');
    cs.push('*');
    assert(cs@ =~= line_number_pattern(number as int));
    string_from_chars(&cs, 0, cs.len())
}

/// The two compiled patterns that strip the model's continuation of the
/// numbered history listing (the lines numbered `history_count + 1` and
/// `history_count + 2`).
pub struct CompletionCleaner {
    history_count: usize,
    next_entry: CompiledPattern,
    entry_after: CompiledPattern,
}

impl CompletionCleaner {
    #[verifier::type_invariant]
    spec fn inv(self) -> bool {
        &&& self.history_count + 2 <= usize::MAX
        &&& self.next_entry@ == line_number_pattern(self.history_count + 1)
        &&& self.entry_after@ == line_number_pattern(self.history_count + 2)
    }

    /// The history count the cleaner was built for.
    pub closed spec fn history_count(self) -> int {
        self.history_count as int
    }

    /// Compiles the patterns for a prompt of `history_count` entries;
    /// `None` when the regex crate refuses one of them.
    pub fn new(history_count: usize) -> (res: Option<Self>)
        requires
            history_count + 2 <= usize::MAX,
        ensures
            res is Some <==> (regex_accepts_pattern(line_number_pattern(history_count + 1))
                && regex_accepts_pattern(line_number_pattern(history_count + 2))),
            res matches Some(c) ==> c.history_count() == history_count,
    {
        let next = compile_pattern(line_number_pattern_string(history_count + 1));
        let after = compile_pattern(line_number_pattern_string(history_count + 2));
        match (next, after) {
            (Some(next_entry), Some(entry_after)) => Some(
                CompletionCleaner { history_count, next_entry, entry_after },
            ),
            _ => None,
        }
    }

    /// Cleans one completion: keeps its first line, removes the first
    /// match of each line-number pattern, and trims the end.
    pub fn clean(&self, response: &str) -> (res: String)
        ensures
            res@ == cleaned(self.history_count(), response@),
            !res@.contains('\n'),
            res@.len() == 0 || !is_whitespace(res@.last()),
            res@.len() <= first_line(response@).len(),
    {
        proof {
            use_type_invariant(self);
        }
        let line = first_line_str(response);
        let once = remove_first_match(&self.next_entry, line.as_str());
        let twice = remove_first_match(&self.entry_after, once.as_str());
        let res = trim_end_str(twice.as_str());
        proof {
            lemma_first_line_shape(response@);
            lemma_trim_end_shape(twice@);
            let (i, j) = choose|i: int, j: int|
                0 <= i <= j <= line@.len() && once@ == line@.subrange(0, i) + line@.subrange(
                    j,
                    line@.len() as int,
                );
            let (k, l) = choose|k: int, l: int|
                0 <= k <= l <= once@.len() && twice@ == once@.subrange(0, k) + once@.subrange(
                    l,
                    once@.len() as int,
                );
            assert forall|m: int| 0 <= m < res@.len() implies res@[m] != '\n' by {
                assert(res@[m] == twice@[m]);
                let n = if m < k { m } else { m + (l - k) };
                assert(twice@[m] == once@[n]);
                let p = if n < i { n } else { n + (j - i) };
                assert(once@[n] == line@[p]);
                assert(!line@.contains('\n'));
            }
        }
        res
    }
}

/// Cleans a completion for prompts of `HISTORY_COUNT_DEFAULT` entries:
/// its first line, without the model's continuation of the numbered
/// listing, without trailing whitespace. Compiles the patterns on each
/// call; a caller that cleans many completions keeps a `CompletionCleaner`.
pub fn clean_completion(response: &str) -> (res: String)
    requires
        regex_accepts_pattern(line_number_pattern(HISTORY_COUNT_DEFAULT + 1)),
        regex_accepts_pattern(line_number_pattern(HISTORY_COUNT_DEFAULT + 2)),
    ensures
        res@ == cleaned(HISTORY_COUNT_DEFAULT as int, response@),
        !res@.contains('\n'),
        res@.len() == 0 || !is_whitespace(res@.last()),
        res@.len() <= first_line(response@).len(),
{
    match CompletionCleaner::new(HISTORY_COUNT_DEFAULT) {
        Some(cleaner) => cleaner.clean(response),
        None => {
            proof {
                assert(false);
            }
            String::new()
        },
    }
}

/// `clean_completion` where the regex crate accepts the default patterns,
/// and `None` where it refuses one of them. It compiles the patterns to
/// learn that they compile, and `clean_completion` compiles them again;
/// code that cleans more than one completion builds a `CompletionCleaner`
/// once and calls `clean`.
pub fn try_clean_completion(response: &str) -> (res: Option<String>)
    ensures
        res is Some <==> (regex_accepts_pattern(line_number_pattern(HISTORY_COUNT_DEFAULT + 1))
            && regex_accepts_pattern(line_number_pattern(HISTORY_COUNT_DEFAULT + 2))),
        res matches Some(s) ==> s@ == cleaned(HISTORY_COUNT_DEFAULT as int, response@)
            && !s@.contains('\n') && (s@.len() == 0 || !is_whitespace(s@.last())) && s@.len()
            <= first_line(response@).len(),
{
    match CompletionCleaner::new(HISTORY_COUNT_DEFAULT) {
        Some(_) => Some(clean_completion(response)),
        None => None,
    }
}

} // verus!
