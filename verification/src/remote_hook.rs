//! What the desktop app decides when a shell session reports an event:
//! whether to show the autocomplete popup, where the cursor sits for the
//! webview, and which notifications the event becomes.
use base64::Engine;
use vstd::prelude::*;
use vstd::utf8::{decode_utf8, encode_utf8, is_char_boundary};

use crate::text::{is_blank, is_blank_str, utf16_len, utf16_len_str};

verus! {

/// The facts about a shell session that the hooks carry and the handlers
/// read.
pub struct ShellContext {
    pub pid: Option<i32>,
    pub process_name: Option<String>,
    pub current_working_directory: Option<String>,
    pub hostname: Option<String>,
    pub terminal_pid: Option<i32>,
}

/// The characters of an optional string.
pub open spec fn opt_text(o: Option<String>) -> Option<Seq<char>> {
    match o {
        Some(s) => Some(s@),
        None => None,
    }
}

/// A copy of an optional string.
pub fn clone_opt_string(o: &Option<String>) -> (res: Option<String>)
    ensures
        res == *o,
{
    match o {
        Some(s) => Some(s.clone()),
        None => None,
    }
}

/// Whether two optional strings hold the same text (`==` on `Option<String>`).
pub fn opt_text_eq(a: &Option<String>, b: &Option<String>) -> (res: bool)
    ensures
        res == (opt_text(*a) == opt_text(*b)),
{
    match (a, b) {
        (Some(x), Some(y)) => x.eq(y),
        (None, None) => true,
        _ => false,
    }
}

// ---------------------------------------------------------------------------
// Edit buffer changes
// ---------------------------------------------------------------------------

/// The byte offset that `cursor` denotes (`cursor as usize`, which wraps a
/// negative cursor around modulo the width of `usize`).
pub open spec fn cursor_offset(cursor: i64) -> int {
    (cursor as usize) as int
}

/// The cursor position in UTF-16 code units, as the webview counts it:
/// the number of units of the text before byte offset `cursor`, or `None`
/// when that offset is past the end or inside a character
/// (`text.get(..cursor).map(|s| s.encode_utf16().count() as i32)`).
pub open spec fn utf16_cursor(text: Seq<char>, cursor: i64) -> Option<i32> {
    let bytes = encode_utf8(text);
    if is_char_boundary(bytes, cursor_offset(cursor)) {
        Some(utf16_len(decode_utf8(bytes.subrange(0, cursor_offset(cursor)))) as i32)
    } else {
        None
    }
}

proof fn lemma_utf16_le_utf8(s: Seq<char>)
    ensures
        utf16_len(s) <= encode_utf8(s).len(),
    decreases s.len(),
{
    if s.len() > 0 {
        lemma_utf16_le_utf8(s.drop_first());
        broadcast use vstd::utf8::char_is_scalar;

        assert(encode_utf8(s) == vstd::utf8::encode_scalar(s.first() as u32) + encode_utf8(
            s.drop_first(),
        ));
    }
}

/// The UTF-16 position of byte offset `cursor` in `text`.
pub fn utf16_cursor_position(text: &str, cursor: i64) -> (res: Option<i32>)
    ensures
        res == utf16_cursor(text@, cursor),
{
    broadcast use vstd::utf8::encode_utf8_decode_utf8;
    broadcast use vstd::utf8::encode_utf8_valid_utf8;

    let n = #[verifier::truncate] (cursor as usize);
    if !text.is_char_boundary(n) {
        return None;
    }
    let (prefix, _) = text.split_at(n);
    proof {
        assert(vstd::utf8::valid_utf8(encode_utf8(text@)));
        assert(n <= encode_utf8(text@).len());
        assert(decode_utf8(encode_utf8(prefix@)) == prefix@);
        lemma_utf16_le_utf8(prefix@);
        assert(encode_utf8(prefix@).len() <= n);
    }
    let units = utf16_len_str(prefix);
    Some(#[verifier::truncate] (units as i32))
}

/// Whether the edit buffer's session belongs to the focused terminal
/// window: there must be an active terminal, and when both the session's
/// terminal and the focused window report a process id, they must agree.
pub open spec fn focused(has_active_terminal: bool, terminal_pid: Option<i32>, window_pid: Option<i32>) -> bool {
    has_active_terminal && match (terminal_pid, window_pid) {
        (Some(f), Some(w)) => f == w,
        _ => true,
    }
}

/// Process ids only veto focus when both are known and differ: without an
/// active terminal nothing is focused; with one, a session is focused
/// whenever either id is unknown, and otherwise exactly when they agree.
pub proof fn law_focus_needs_known_differing_pids_to_fail(
    has_active_terminal: bool,
    terminal_pid: Option<i32>,
    window_pid: Option<i32>,
)
    ensures
        !has_active_terminal ==> !focused(has_active_terminal, terminal_pid, window_pid),
        has_active_terminal && (terminal_pid is None || window_pid is None) ==> focused(
            has_active_terminal,
            terminal_pid,
            window_pid,
        ),
        has_active_terminal && terminal_pid is Some && window_pid is Some ==> (focused(
            has_active_terminal,
            terminal_pid,
            window_pid,
        ) <==> terminal_pid->0 == window_pid->0),
{
}

/// `focused`, computed.
pub fn session_is_focused(
    has_active_terminal: bool,
    terminal_pid: Option<i32>,
    active_window_pid: Option<i32>,
) -> (res: bool)
    ensures
        res == focused(has_active_terminal, terminal_pid, active_window_pid),
{
    has_active_terminal && match (terminal_pid, active_window_pid) {
        (Some(f), Some(w)) => f == w,
        _ => true,
    }
}

/// What the platform reports about focus when an edit buffer arrives.
pub struct FocusState {
    pub has_active_terminal: bool,
    pub terminal_pid: Option<i32>,
    pub active_window_pid: Option<i32>,
    /// Focus has just moved to this terminal and its text has not changed
    /// since.
    pub focus_change_suppressed: bool,
}

/// Whether the autocomplete popup is shown or hidden.
pub enum PopupVisibility {
    Show,
    Hide,
}

/// What an edit-buffer hook makes the desktop app do.
pub struct EditBufferEffects {
    /// The cursor in UTF-16 units, for the edit-buffer notification.
    pub cursor_utf16: Option<i32>,
    /// Whether the platform is told that the edit buffer changed.
    pub notify_platform: bool,
    /// Whether the popup is moved to the terminal's caret.
    pub follow_caret: bool,
    pub popup: PopupVisibility,
}

/// Decides what an edit-buffer hook with `text` and `cursor` does, by the
/// Linux rules: the popup shows only for a non-blank buffer of the focused
/// terminal whose focus change is no longer suppressed. (On other
/// platforms fig-lite hides the popup only for a blank buffer.)
pub fn edit_buffer_effects(text: &str, cursor: i64, focus: &FocusState) -> (res: EditBufferEffects)
    ensures
        res.cursor_utf16 == utf16_cursor(text@, cursor),
        res.notify_platform == !is_blank(text@),
        res.follow_caret == (focused(focus.has_active_terminal, focus.terminal_pid, focus.active_window_pid)
            && !focus.focus_change_suppressed),
        res.popup == (if is_blank(text@) || !focused(
            focus.has_active_terminal,
            focus.terminal_pid,
            focus.active_window_pid,
        ) || focus.focus_change_suppressed {
            PopupVisibility::Hide
        } else {
            PopupVisibility::Show
        }),
        is_blank(text@) ==> res.popup == PopupVisibility::Hide && !res.notify_platform,
{
    let cursor_utf16 = utf16_cursor_position(text, cursor);
    let empty = is_blank_str(text);
    let in_focus = session_is_focused(
        focus.has_active_terminal,
        focus.terminal_pid,
        focus.active_window_pid,
    );
    let follow_caret = in_focus && !focus.focus_change_suppressed;
    let popup = if empty || !in_focus || focus.focus_change_suppressed {
        PopupVisibility::Hide
    } else {
        PopupVisibility::Show
    };
    EditBufferEffects { cursor_utf16, notify_platform: !empty, follow_caret, popup }
}

/// A cursor position in UTF-16 units never exceeds the byte offset it
/// comes from.
pub proof fn law_utf16_cursor_within_byte_offset(text: Seq<char>, cursor: i64)
    requires
        0 <= cursor <= i32::MAX,
    ensures
        utf16_cursor(text, cursor) matches Some(p) ==> 0 <= p <= cursor,
{
    broadcast use vstd::utf8::encode_utf8_decode_utf8;
    broadcast use vstd::utf8::decode_utf8_encode_utf8;
    broadcast use vstd::utf8::encode_utf8_valid_utf8;
    broadcast use vstd::utf8::valid_utf8_split;

    let bytes = encode_utf8(text);
    let n = cursor_offset(cursor);
    assert(n == cursor);
    if is_char_boundary(bytes, n) {
        let pre = bytes.subrange(0, n);
        assert(vstd::utf8::valid_utf8(pre));
        assert(encode_utf8(decode_utf8(pre)) == pre);
        lemma_utf16_le_utf8(decode_utf8(pre));
        assert(pre.len() <= n);
    }
}

/// The UTF-16 cursor counts the units of the text before the cursor: when
/// there is a position, it is the UTF-16 length of the prefix of the text
/// whose UTF-8 encoding is exactly `cursor` bytes long; a cursor past the
/// end of the text has no position, and the start of the text is 0.
pub proof fn law_utf16_cursor_counts_the_prefix(text: Seq<char>, cursor: i64)
    ensures
        utf16_cursor(text, cursor) matches Some(p) ==> exists|q: Seq<char>|
            q.is_prefix_of(text) && encode_utf8(q).len() == cursor_offset(cursor) && p == utf16_len(
                q,
            ) as i32,
        cursor_offset(cursor) > encode_utf8(text).len() ==> utf16_cursor(text, cursor) is None,
        cursor == 0 ==> utf16_cursor(text, cursor) == Some(0i32),
{
    broadcast use vstd::utf8::encode_utf8_decode_utf8;
    broadcast use vstd::utf8::decode_utf8_encode_utf8;
    broadcast use vstd::utf8::encode_utf8_valid_utf8;
    broadcast use vstd::utf8::valid_utf8_split;
    broadcast use vstd::utf8::decode_utf8_split;
    broadcast use vstd::utf8::is_char_boundary_start_end_of_seq;

    let bytes = encode_utf8(text);
    let n = cursor_offset(cursor);
    assert(vstd::utf8::valid_utf8(bytes));
    if is_char_boundary(bytes, n) {
        assert(0 <= n <= bytes.len());
        let pre = bytes.subrange(0, n);
        let post = bytes.subrange(n, bytes.len() as int);
        let q = decode_utf8(pre);
        assert(vstd::utf8::valid_utf8(pre));
        assert(encode_utf8(q) == pre);
        assert(decode_utf8(bytes) =~= decode_utf8(pre) + decode_utf8(post));
        assert(text == q + decode_utf8(post));
        assert(q =~= text.subrange(0, q.len() as int));
        assert(q.is_prefix_of(text));
    }
    if cursor == 0 {
        assert(n == 0);
        assert(bytes.subrange(0, 0) =~= Seq::<u8>::empty());
        assert(decode_utf8(Seq::<u8>::empty()) =~= Seq::<char>::empty());
    }
}

// ---------------------------------------------------------------------------
// Prompt, command execution
// ---------------------------------------------------------------------------

/// The location change that a prompt hook reports.
pub struct LocationChange {
    pub directory: Option<String>,
    pub host_name: Option<String>,
}

/// A prompt hook reports a location change when the session had a context
/// before, the hook has one, and their working directories differ; the
/// change names the new directory and the hook's host.
pub fn location_change(previous: &Option<ShellContext>, current: &Option<ShellContext>) -> (res:
    Option<LocationChange>)
    ensures
        res is Some <==> (previous is Some && current is Some && opt_text(
            previous->0.current_working_directory,
        ) != opt_text(current->0.current_working_directory)),
        res matches Some(change) ==> change.directory == current->0.current_working_directory
            && change.host_name == current->0.hostname,
{
    match (previous, current) {
        (Some(old_ctx), Some(new_ctx)) => {
            if opt_text_eq(&old_ctx.current_working_directory, &new_ctx.current_working_directory) {
                None
            } else {
                Some(
                    LocationChange {
                        directory: clone_opt_string(&new_ctx.current_working_directory),
                        host_name: clone_opt_string(&new_ctx.hostname),
                    },
                )
            }
        },
        _ => None,
    }
}

/// The process that a shell-prompt or process-changed notification names
/// (with an empty environment).
pub struct ProcessInfo {
    pub pid: Option<i32>,
    pub executable: Option<String>,
    pub directory: Option<String>,
}

/// The process of a hook's context, when the hook has one.
pub fn process_of(context: &Option<ShellContext>) -> (res: Option<ProcessInfo>)
    ensures
        res is Some <==> context is Some,
        res matches Some(p) ==> p.pid == context->0.pid && p.executable == context->0.process_name
            && p.directory == context->0.current_working_directory,
{
    match context {
        Some(ctx) => Some(
            ProcessInfo {
                pid: ctx.pid,
                executable: clone_opt_string(&ctx.process_name),
                directory: clone_opt_string(&ctx.current_working_directory),
            },
        ),
        None => None,
    }
}

/// The content of a history-updated notification.
pub struct HistoryUpdate {
    pub command: Option<String>,
    pub process_name: Option<String>,
    pub current_working_directory: Option<String>,
    pub hostname: Option<String>,
    pub exit_code: Option<i32>,
}

/// The history update that a post-exec hook reports: its command and exit
/// code, and the process, directory and host of its context, if any.
pub fn history_update(command: &Option<String>, exit_code: Option<i32>, context: &Option<ShellContext>) -> (res:
    HistoryUpdate)
    ensures
        res.command == *command,
        res.exit_code == exit_code,
        res.process_name == (match context {
            Some(c) => c.process_name,
            None => None,
        }),
        res.current_working_directory == (match context {
            Some(c) => c.current_working_directory,
            None => None,
        }),
        res.hostname == (match context {
            Some(c) => c.hostname,
            None => None,
        }),
{
    let (process_name, current_working_directory, hostname) = match context {
        Some(ctx) => (
            clone_opt_string(&ctx.process_name),
            clone_opt_string(&ctx.current_working_directory),
            clone_opt_string(&ctx.hostname),
        ),
        None => (None, None, None),
    };
    HistoryUpdate {
        command: clone_opt_string(command),
        process_name,
        current_working_directory,
        hostname,
        exit_code,
    }
}

/// The content of a keybinding-pressed notification. It reports no key
/// press, only the action bound to the key and the hook's context.
pub struct KeybindingPressed {
    pub action: Option<String>,
    pub context: Option<ShellContext>,
}

/// The notification that an intercepted-key hook with `action` and
/// `context` becomes.
pub fn keybinding_pressed(action: String, context: Option<ShellContext>) -> (res: KeybindingPressed)
    ensures
        res.action == Some(action),
        res.context == context,
{
    KeybindingPressed { action: Some(action), context }
}

// ---------------------------------------------------------------------------
// Notification payloads
// ---------------------------------------------------------------------------

/// The character of the standard base64 alphabet for the six-bit value `v`:
/// `A`-`Z`, `a`-`z`, `0`-`9`, `+`, `/`.
pub open spec fn base64_char(v: int) -> char {
    if v < 26 {
        (65 + v) as char
    } else if v < 52 {
        (97 + (v - 26)) as char
    } else if v < 62 {
        (48 + (v - 52)) as char
    } else if v == 62 {
        '+'
    } else {
        '/'
    }
}

/// The standard base64 encoding of `bytes` (RFC 4648 alphabet, `=`
/// padding): every group of three bytes becomes four characters, and a
/// final group of one or two bytes becomes two or three characters padded
/// to four with `=`.
pub open spec fn base64_standard(bytes: Seq<u8>) -> Seq<char>
    decreases bytes.len(),
{
    if bytes.len() == 0 {
        Seq::empty()
    } else if bytes.len() == 1 {
        let b0 = bytes[0] as int;
        seq![base64_char(b0 / 4), base64_char((b0 % 4) * 16), '=', '=']
    } else if bytes.len() == 2 {
        let b0 = bytes[0] as int;
        let b1 = bytes[1] as int;
        seq![
            base64_char(b0 / 4),
            base64_char((b0 % 4) * 16 + b1 / 16),
            base64_char((b1 % 16) * 4),
            '=',
        ]
    } else {
        let b0 = bytes[0] as int;
        let b1 = bytes[1] as int;
        let b2 = bytes[2] as int;
        seq![
            base64_char(b0 / 4),
            base64_char((b0 % 4) * 16 + b1 / 16),
            base64_char((b1 % 16) * 4 + b2 / 64),
            base64_char(b2 % 64),
        ] + base64_standard(bytes.skip(3))
    }
}

proof fn lemma_base64_len(bytes: Seq<u8>)
    ensures
        base64_standard(bytes).len() == 4 * ((bytes.len() + 2) / 3),
    decreases bytes.len(),
{
    if bytes.len() > 2 {
        lemma_base64_len(bytes.skip(3));
    }
}

/// Calls `BASE64_STANDARD.encode(bytes)` from the `base64` crate. Claims
/// that the result is the standard padded base64 encoding
/// `base64_standard(bytes)`. The crate panics
/// when that length does not fit in a `usize`, which `requires` excludes.
#[verifier::external_body]
fn encode_base64(bytes: &[u8]) -> (res: String)
    requires
        4 * ((bytes@.len() + 2) / 3) <= usize::MAX,
    ensures
        res@ == base64_standard(bytes@),
{
    base64::engine::general_purpose::STANDARD.encode(bytes)
}

/// The payload of a notification event for the webview: the encoded
/// message in standard base64.
pub fn notification_payload(encoded_message: &[u8]) -> (res: String)
    requires
        4 * ((encoded_message@.len() + 2) / 3) <= usize::MAX,
    ensures
        res@ == base64_standard(encoded_message@),
        res@.len() == 4 * ((encoded_message@.len() + 2) / 3),
{
    proof {
        lemma_base64_len(encoded_message@);
    }
    encode_base64(encoded_message)
}

} // verus!
