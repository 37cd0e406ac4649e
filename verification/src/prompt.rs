//! The prompt sent for an inline completion: the most recent shell history
//! as a numbered listing, followed by the line being typed.
use vstd::prelude::*;
use vstd::utf8::encode_utf8;

use crate::text::{
    law_pad_left_layout,
    append_str,
    decimal,
    pad_left,
    push_padded_decimal,
    string_from_chars,
    utf8_len_below,
};

verus! {

/// The most UTF-8 bytes that the recommendation service accepts as the
/// text left of the cursor; a prompt must stay below it.
pub const FILE_CONTEXT_LEFT_FILE_CONTENT_MAX_LEN: usize = 10240;

/// One shell history entry, as far as prompts read it: the command line,
/// when one was recorded.
pub struct CommandInfo {
    pub command: Option<String>,
}

impl View for CommandInfo {
    type V = Option<Seq<char>>;

    open spec fn view(&self) -> Option<Seq<char>> {
        match &self.command {
            Some(c) => Some(c@),
            None => None,
        }
    }
}

/// The views of a slice of history entries.
pub open spec fn history_view(history: Seq<CommandInfo>) -> Seq<Option<Seq<char>>> {
    history.map_values(|c: CommandInfo| c@)
}

/// The recorded commands among the last `k` entries of `history`, taken
/// from the end backwards (`history.iter().rev().take(k)`), entries without
/// a command left out.
pub open spec fn recent_commands(history: Seq<Option<Seq<char>>>, k: nat) -> Seq<Seq<char>>
    decreases k,
{
    if k == 0 || k > history.len() {
        Seq::empty()
    } else {
        let earlier = recent_commands(history, (k - 1) as nat);
        match history[history.len() - k] {
            Some(c) => earlier.push(c),
            None => earlier,
        }
    }
}

/// Line `number` of a listing: `format!("{:>5}  {text}", number)`.
pub open spec fn numbered_line(number: nat, text: Seq<char>) -> Seq<char> {
    pad_left(decimal(number), 5) + seq![' ', ' '] + text
}

/// `lines` numbered from 1 and joined by line breaks.
pub open spec fn numbered_listing(lines: Seq<Seq<char>>) -> Seq<char>
    decreases lines.len(),
{
    if lines.len() == 0 {
        Seq::empty()
    } else if lines.len() == 1 {
        numbered_line(1, lines[0])
    } else {
        numbered_listing(lines.drop_last()) + seq!['\n'] + numbered_line(lines.len(), lines.last())
    }
}

/// The prompt built from the last `k` history entries and the buffer.
pub open spec fn candidate_prompt(history: Seq<Option<Seq<char>>>, buffer: Seq<char>, k: nat) -> Seq<
    char,
> {
    numbered_listing(recent_commands(history, k).push(buffer))
}

/// Whether a prompt is short enough, in UTF-8 bytes, to be sent.
pub open spec fn fits(prompt: Seq<char>, max_len: nat) -> bool {
    encode_utf8(prompt).len() < max_len
}

/// The first candidate that fits, trying `k`, `k - 1`, ..., `1` entries.
pub open spec fn prompt_within(
    history: Seq<Option<Seq<char>>>,
    buffer: Seq<char>,
    k: nat,
    max_len: nat,
) -> Option<Seq<char>>
    decreases k,
{
    if k == 0 {
        None
    } else if fits(candidate_prompt(history, buffer, k), max_len) {
        Some(candidate_prompt(history, buffer, k))
    } else {
        prompt_within(history, buffer, (k - 1) as nat, max_len)
    }
}

/// The prompt for `buffer`: the candidate with the most history entries
/// that stays under `max_len` bytes; `None` when there is no history or
/// no candidate fits.
pub open spec fn prompt_spec(history: Seq<Option<Seq<char>>>, buffer: Seq<char>, max_len: nat) -> Option<
    Seq<char>,
> {
    prompt_within(history, buffer, history.len(), max_len)
}

/// A listing grows by one line at a time: the lines before, a line break
/// when there were any, then the new line numbered one past them.
pub proof fn lemma_listing_push(lines: Seq<Seq<char>>, x: Seq<char>)
    ensures
        numbered_listing(lines.push(x)) == if lines.len() == 0 {
            numbered_line(1, x)
        } else {
            numbered_listing(lines) + seq!['\n'] + numbered_line(lines.len() + 1, x)
        },
{
    assert(lines.push(x).drop_last() =~= lines);
    assert(lines.push(x).last() == x);
    if lines.len() == 0 {
        assert(lines.push(x)[0] == x);
    }
}

proof fn lemma_recent_commands_len(history: Seq<Option<Seq<char>>>, k: nat)
    ensures
        recent_commands(history, k).len() <= k,
    decreases k,
{
    if k > 0 && k <= history.len() {
        lemma_recent_commands_len(history, (k - 1) as nat);
    }
}

/// Appends line `number` of a listing, preceded by a line break unless it
/// is the first line.
fn push_numbered_line(out: &mut Vec<char>, number: usize, text: &str)
    ensures
        final(out)@ == old(out)@ + (if number > 1 { seq!['\n'] } else { Seq::empty() })
            + numbered_line(number as nat, text@),
{
    let ghost start = out@;
    if number > 1 {
        out.push('\n');
    }
    let ghost sep = out@;
    push_padded_decimal(out, number, 5);
    out.push(' ');
    out.push(' ');
    append_str(out, text);
    assert(final(out)@ =~= old(out)@ + (if number > 1 { seq!['\n'] } else { Seq::empty() })
        + numbered_line(number as nat, text@));
}

/// The candidate prompt from the last `k` entries of `history` and `buffer`.
pub fn candidate(history: &[CommandInfo], buffer: &str, k: usize) -> (res: String)
    requires
        k <= history@.len() < usize::MAX,
    ensures
        res@ == candidate_prompt(history_view(history@), buffer@, k as nat),
{
    let ghost h = history_view(history@);
    let mut out: Vec<char> = Vec::new();
    let mut count: usize = 0;
    let mut j: usize = 0;
    while j < k
        invariant
            k <= history@.len() < usize::MAX,
            h == history_view(history@),
            j <= k,
            count == recent_commands(h, j as nat).len(),
            out@ == numbered_listing(recent_commands(h, j as nat)),
        decreases k - j,
    {
        proof {
            lemma_recent_commands_len(h, j as nat);
        }
        let idx = history.len() - 1 - j;
        assert(h[idx as int] == history@[idx as int]@);
        assert(h.len() - (j + 1) == idx);
        match &history[idx].command {
            Some(c) => {
                proof {
                    lemma_listing_push(recent_commands(h, j as nat), c@);
                }
                push_numbered_line(&mut out, count + 1, c.as_str());
                count = count + 1;
                assert(out@ =~= numbered_listing(recent_commands(h, (j + 1) as nat)));
            },
            None => {},
        }
        j = j + 1;
    }
    proof {
        lemma_recent_commands_len(h, k as nat);
        lemma_listing_push(recent_commands(h, k as nat), buffer@);
    }
    push_numbered_line(&mut out, count + 1, buffer);
    assert(out@ =~= candidate_prompt(h, buffer@, k as nat));
    string_from_chars(&out, 0, out.len())
}

/// The prompt for an inline completion of `buffer`, built from `history`:
/// the listing with the most history entries
/// whose UTF-8 length stays below `FILE_CONTEXT_LEFT_FILE_CONTENT_MAX_LEN`.
pub fn prompt(history: &[CommandInfo], buffer: &str) -> (res: Option<String>)
    requires
        history@.len() < usize::MAX,
    ensures
        match res {
            Some(p) => prompt_spec(
                history_view(history@),
                buffer@,
                FILE_CONTEXT_LEFT_FILE_CONTENT_MAX_LEN as nat,
            ) == Some(p@),
            None => prompt_spec(
                history_view(history@),
                buffer@,
                FILE_CONTEXT_LEFT_FILE_CONTENT_MAX_LEN as nat,
            ) is None,
        },
{
    let ghost h = history_view(history@);
    let ghost max = FILE_CONTEXT_LEFT_FILE_CONTENT_MAX_LEN as nat;
    let mut k = history.len();
    while k > 0
        invariant
            k <= history@.len() < usize::MAX,
            h == history_view(history@),
            max == FILE_CONTEXT_LEFT_FILE_CONTENT_MAX_LEN as nat,
            prompt_within(h, buffer@, k as nat, max) == prompt_spec(h, buffer@, max),
        decreases k,
    {
        let cand = candidate(history, buffer, k);
        if utf8_len_below(cand.as_str(), FILE_CONTEXT_LEFT_FILE_CONTENT_MAX_LEN) {
            return Some(cand);
        }
        k = k - 1;
    }
    None
}

// ---------------------------------------------------------------------------
// Laws
// ---------------------------------------------------------------------------

/// Line `n` of a listing is its number right-aligned in five columns (wider
/// only when the number has more than five digits), two spaces, then the
/// text.
pub proof fn law_numbered_line_layout(n: nat, text: Seq<char>)
    ensures
        ({
            let l = numbered_line(n, text);
            let d = decimal(n);
            let w: int = if d.len() < 5 { 5 } else { d.len() as int };
            &&& l.len() == w + 2 + text.len()
            &&& forall|i: int| 0 <= i < w - d.len() ==> #[trigger] l[i] == ' '
            &&& l.subrange(w - d.len(), w) == d
            &&& l[w] == ' '
            &&& l[w + 1] == ' '
            &&& l.skip(w + 2) == text
        }),
{
    let l = numbered_line(n, text);
    let d = decimal(n);
    let p = pad_left(d, 5);
    law_pad_left_layout(d, 5);
    let w: int = p.len() as int;
    assert(l == p + seq![' ', ' '] + text);
    assert(l.subrange(w - d.len(), w) =~= p.skip(p.len() - d.len()));
    assert(l.skip(w + 2) =~= text);
    assert forall|i: int| 0 <= i < w - d.len() implies #[trigger] l[i] == ' ' by {
        assert(l[i] == p[i]);
    }
}

/// The recorded commands of the last `k` entries, newest (last) first.
pub open spec fn commands_newest_first(history: Seq<Option<Seq<char>>>, k: nat) -> Seq<Seq<char>> {
    Seq::new(k, |j: int| history[history.len() - 1 - j]).filter(|o: Option<Seq<char>>| o is Some).map_values(
        |o: Option<Seq<char>>| o->0,
    )
}

/// The listing of a prompt holds exactly the recorded commands among the
/// last `k` history entries, every one of them (repeats included), in
/// order from the end of the history backwards; entries without a command
/// give no line.
pub proof fn law_recent_commands_are_all_recorded(history: Seq<Option<Seq<char>>>, k: nat)
    requires
        k <= history.len(),
    ensures
        recent_commands(history, k) == commands_newest_first(history, k),
    decreases k,
{
    reveal(Seq::filter);
    let pred = |o: Option<Seq<char>>| o is Some;
    let window = Seq::new(k, |j: int| history[history.len() - 1 - j]);
    if k == 0 {
        assert(window =~= Seq::<Option<Seq<char>>>::empty());
        assert(commands_newest_first(history, k) =~= Seq::<Seq<char>>::empty());
    } else {
        law_recent_commands_are_all_recorded(history, (k - 1) as nat);
        let prev = Seq::new((k - 1) as nat, |j: int| history[history.len() - 1 - j]);
        assert(window.drop_last() =~= prev);
        assert(window.last() == history[history.len() - k]);
        let fp = prev.filter(pred);
        assert(window.filter(pred) == (if pred(window.last()) {
            fp.push(window.last())
        } else {
            fp
        }));
        if pred(window.last()) {
            assert(fp.push(window.last()).map_values(|o: Option<Seq<char>>| o->0) =~= fp.map_values(
                |o: Option<Seq<char>>| o->0,
            ).push(window.last()->0));
        }
    }
}

proof fn lemma_within_picks_largest(
    history: Seq<Option<Seq<char>>>,
    buffer: Seq<char>,
    k: nat,
    max_len: nat,
)
    ensures
        match prompt_within(history, buffer, k, max_len) {
            Some(p) => exists|n: nat|
                1 <= n <= k && p == candidate_prompt(history, buffer, n) && fits(p, max_len)
                    && forall|m: nat|
                    n < m <= k ==> !fits(#[trigger] candidate_prompt(history, buffer, m), max_len),
            None => forall|m: nat|
                1 <= m <= k ==> !fits(#[trigger] candidate_prompt(history, buffer, m), max_len),
        },
    decreases k,
{
    if k > 0 {
        lemma_within_picks_largest(history, buffer, (k - 1) as nat, max_len);
        if fits(candidate_prompt(history, buffer, k), max_len) {
            assert(forall|m: nat| k < m <= k ==> !fits(
                #[trigger] candidate_prompt(history, buffer, m),
                max_len,
            ));
        } else {
            match prompt_within(history, buffer, (k - 1) as nat, max_len) {
                Some(p) => {
                    let n = choose|n: nat|
                        1 <= n <= k - 1 && p == candidate_prompt(history, buffer, n) && fits(
                            p,
                            max_len,
                        ) && forall|m: nat|
                            n < m <= k - 1 ==> !fits(
                                #[trigger] candidate_prompt(history, buffer, m),
                                max_len,
                            );
                    assert forall|m: nat| n < m <= k implies !fits(
                        #[trigger] candidate_prompt(history, buffer, m),
                        max_len,
                    ) by {
                        if m < k {
                        }
                    }
                },
                None => {},
            }
        }
    }
}

/// A prompt that is sent is always shorter than the limit in UTF-8 bytes,
/// and it is the listing of some number of the most recent entries.
pub proof fn law_prompt_below_byte_limit(
    history: Seq<Option<Seq<char>>>,
    buffer: Seq<char>,
    max_len: nat,
)
    ensures
        prompt_spec(history, buffer, max_len) matches Some(p) ==> encode_utf8(p).len() < max_len
            && exists|n: nat| 1 <= n <= history.len() && p == candidate_prompt(history, buffer, n),
{
    law_prompt_is_largest_fitting(history, buffer, max_len);
}

/// A prompt is the numbered listing of the most recent history entries and
/// the buffer that holds as many entries as fit below the length limit:
/// the one chosen fits, every listing with more entries does not, and there
/// is no prompt exactly when no listing fits (in particular when the
/// history is empty).
pub proof fn law_prompt_is_largest_fitting(
    history: Seq<Option<Seq<char>>>,
    buffer: Seq<char>,
    max_len: nat,
)
    ensures
        match prompt_spec(history, buffer, max_len) {
            Some(p) => exists|n: nat|
                1 <= n <= history.len() && p == candidate_prompt(history, buffer, n) && fits(
                    p,
                    max_len,
                ) && forall|m: nat|
                    n < m <= history.len() ==> !fits(
                        #[trigger] candidate_prompt(history, buffer, m),
                        max_len,
                    ),
            None => forall|m: nat|
                1 <= m <= history.len() ==> !fits(
                    #[trigger] candidate_prompt(history, buffer, m),
                    max_len,
                ),
        },
        history.len() == 0 ==> prompt_spec(history, buffer, max_len) is None,
{
    lemma_within_picks_largest(history, buffer, history.len(), max_len);
}

proof fn lemma_listing_ends_with_last(lines: Seq<Seq<char>>)
    requires
        lines.len() > 0,
    ensures
        numbered_line(lines.len(), lines.last()).is_suffix_of(numbered_listing(lines)),
{
    let l = numbered_listing(lines);
    let t = numbered_line(lines.len(), lines.last());
    if lines.len() == 1 {
        assert(l =~= t);
        assert(t =~= l.subrange(0, l.len() as int));
    } else {
        assert(t =~= l.subrange(l.len() - t.len(), l.len() as int));
    }
}

/// Every candidate prompt ends with the buffer, numbered one past the
/// history commands it lists.
pub proof fn law_prompt_ends_with_buffer(
    history: Seq<Option<Seq<char>>>,
    buffer: Seq<char>,
    k: nat,
)
    ensures
        numbered_line(recent_commands(history, k).len() + 1, buffer).is_suffix_of(
            candidate_prompt(history, buffer, k),
        ),
        buffer.is_suffix_of(candidate_prompt(history, buffer, k)),
{
    let lines = recent_commands(history, k).push(buffer);
    assert(lines.last() == buffer);
    lemma_listing_ends_with_last(lines);
    let l = numbered_listing(lines);
    let t = numbered_line(lines.len(), buffer);
    assert(buffer =~= t.subrange(t.len() - buffer.len(), t.len() as int));
    assert(buffer =~= l.subrange(l.len() - buffer.len(), l.len() as int)) by {
        assert forall|i: int| 0 <= i < buffer.len() implies buffer[i] == l[l.len() - buffer.len()
            + i] by {
            assert(l[l.len() - t.len() + (t.len() - buffer.len() + i)] == t[t.len() - buffer.len()
                + i]);
        }
    }
}

} // verus!
