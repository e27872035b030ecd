//! The pinned step prompt: the prompt lines and how a key press answers
//! the confirmation.
use crate::text::{decimal, owned, push_decimal};
use vstd::prelude::*;

verus! {

/// The answer read from a confirmation key press.
#[derive(Debug, Clone, Copy, PartialEq, Eq, Structural)]
pub enum Confirmation {
    Yes,
    No,
    Quit,
}

/// The key of a key press, as far as the prompt distinguishes keys.
#[derive(Debug, Clone, Copy, PartialEq, Eq, Structural)]
pub enum KeyPress {
    Enter,
    Char(char),
    Other,
}

/// The modifiers held with a key press.
#[derive(Debug, Clone, Copy, PartialEq, Eq, Structural)]
pub enum KeyMods {
    /// No modifier.
    Plain,
    /// Shift alone.
    Shift,
    /// Control alone.
    Control,
    /// Any other combination.
    Other,
}

/// The answer a key press gives: Ctrl-C quits; Enter, `y` and `Y` confirm;
/// `n` and `N` decline; `q` and `Q` quit (letters with no modifier or with
/// Shift alone); every other key is ignored.
pub open spec fn answer_for(key: KeyPress, mods: KeyMods) -> Option<Confirmation> {
    let plain = mods == KeyMods::Plain || mods == KeyMods::Shift;
    match key {
        KeyPress::Enter => Some(Confirmation::Yes),
        KeyPress::Char(c) => if c == 'c' && mods == KeyMods::Control {
            Some(Confirmation::Quit)
        } else if (c == 'y' || c == 'Y') && plain {
            Some(Confirmation::Yes)
        } else if (c == 'n' || c == 'N') && plain {
            Some(Confirmation::No)
        } else if (c == 'q' || c == 'Q') && plain {
            Some(Confirmation::Quit)
        } else {
            None
        },
        KeyPress::Other => None,
    }
}

/// How a key press answers the confirmation prompt (`None`: ignored).
pub fn classify_key(key: KeyPress, mods: KeyMods) -> (r: Option<Confirmation>)
    ensures
        r == answer_for(key, mods),
{
    let plain = mods == KeyMods::Plain || mods == KeyMods::Shift;
    match key {
        KeyPress::Enter => Some(Confirmation::Yes),
        KeyPress::Char(c) => {
            if c == 'c' && mods == KeyMods::Control {
                Some(Confirmation::Quit)
            } else if (c == 'y' || c == 'Y') && plain {
                Some(Confirmation::Yes)
            } else if (c == 'n' || c == 'N') && plain {
                Some(Confirmation::No)
            } else if (c == 'q' || c == 'Q') && plain {
                Some(Confirmation::Quit)
            } else {
                None
            }
        },
        KeyPress::Other => None,
    }
}

/// `  state: <current>  [Y/n] step?`
pub fn format_initial_prompt(current_state: &str) -> (r: String)
    ensures
        r@ == "  state: "@ + current_state@ + "  [Y/n] step?"@,
{
    let mut s = String::from_str("  state: ");
    s.append(current_state);
    s.append("  [Y/n] step?");
    s
}

/// `  state: <current> → <next>  [Y/n]`
pub fn format_transition_prompt(current_state: &str, next_state: &str) -> (r: String)
    ensures
        r@ == "  state: "@ + current_state@ + " \u{2192} "@ + next_state@ + "  [Y/n]"@,
{
    let mut s = String::from_str("  state: ");
    s.append(current_state);
    s.append(" \u{2192} ");
    s.append(next_state);
    s.append("  [Y/n]");
    s
}

// ── Terminal control sequences ───────────────────────────────────────────────

/// `ESC [ row ;1H`: the cursor to the first column of `row` (1-based).
pub open spec fn cursor_to(row: nat) -> Seq<char> {
    "\x1b["@ + decimal(row) + ";1H"@
}

/// What pins the scroll region to every row but the last and moves the
/// cursor into it; nothing for a terminal of fewer than two rows.
pub open spec fn scroll_region_text(height: u16) -> Seq<char> {
    if height < 2 {
        Seq::empty()
    } else {
        "\x1b[1;"@ + decimal((height - 1) as nat) + "r"@ + cursor_to((height - 1) as nat)
    }
}

/// Pins the scroll region (DECSTBM) for a terminal `height` rows tall.
pub fn scroll_region_sequence(height: u16) -> (r: String)
    ensures
        r@ == scroll_region_text(height),
{
    let mut s = String::new();
    if height < 2 {
        return s;
    }
    s.append("\x1b[1;");
    push_decimal(&mut s, (height - 1) as u64);
    s.append("r\x1b[");
    push_decimal(&mut s, (height - 1) as u64);
    s.append(";1H");
    proof {
        reveal_strlit("r\x1b[");
        reveal_strlit("r");
        reveal_strlit("\x1b[");
        assert(s@ =~= scroll_region_text(height));
    }
    s
}

/// Moves to the prompt line (the last row) and clears it.
pub fn clear_prompt_sequence(height: u16) -> (r: String)
    ensures
        r@ == cursor_to(height as nat) + "\x1b[2K"@,
{
    let mut s = String::from_str("\x1b[");
    push_decimal(&mut s, height as u64);
    s.append(";1H\x1b[2K");
    proof {
        reveal_strlit(";1H\x1b[2K");
        reveal_strlit(";1H");
        reveal_strlit("\x1b[2K");
        assert(s@ =~= cursor_to(height as nat) + "\x1b[2K"@);
    }
    s
}

/// Writes `line` as a new line at the bottom of the scroll region.
pub fn log_sequence(height: u16, line: &str) -> (r: String)
    requires
        height >= 1,
    ensures
        r@ == cursor_to((height - 1) as nat) + "\r\n"@ + line@,
{
    let mut s = String::from_str("\x1b[");
    push_decimal(&mut s, (height - 1) as u64);
    s.append(";1H\r\n");
    s.append(line);
    proof {
        reveal_strlit(";1H\r\n");
        reveal_strlit(";1H");
        reveal_strlit("\r\n");
        assert(s@ =~= cursor_to((height - 1) as nat) + "\r\n"@ + line@);
    }
    s
}

/// Shows `text` on the prompt line, cut to the terminal's width.
pub fn prompt_sequence(height: u16, width: u16, text: &str) -> (r: String)
    ensures
        r@ == cursor_to(height as nat) + "\x1b[2K"@ + text@.take(
            if text@.len() < width as nat { text@.len() as int } else { width as int },
        ),
{
    let mut s = clear_prompt_sequence(height);
    let n: usize = text.unicode_len();
    let k: usize = if n < width as usize { n } else { width as usize };
    let ghost start = s@;
    for i in 0..k
        invariant
            k <= n == text@.len(),
            s@ == start + text@.take(i as int),
    {
        crate::text::push_char(&mut s, text.get_char(i));
        proof {
            assert(text@.take(i + 1) =~= text@.take(i as int).push(text@[i as int]));
        }
    }
    s
}

/// Resets the scroll region and leaves the cursor below the prompt line.
pub fn cleanup_sequence(height: u16) -> (r: String)
    ensures
        r@ == "\x1b[r"@ + cursor_to(height as nat) + "\r\n"@,
{
    let mut s = String::from_str("\x1b[r\x1b[");
    push_decimal(&mut s, height as u64);
    s.append(";1H\r\n");
    proof {
        reveal_strlit("\x1b[r\x1b[");
        reveal_strlit("\x1b[r");
        reveal_strlit("\x1b[");
        reveal_strlit(";1H\r\n");
        reveal_strlit(";1H");
        reveal_strlit("\r\n");
        assert(s@ =~= "\x1b[r"@ + cursor_to(height as nat) + "\r\n"@);
    }
    s
}

} // verus!
