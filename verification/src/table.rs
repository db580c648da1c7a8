use vstd::prelude::*;
use vstd::string::*;
use vstd::seq_lib::lemma_concat_associative;

use crate::session::{PickerRow, SessionState};
use crate::text::{decimal_text, push_char, push_decimal};

verus! {

broadcast use vstd::string::group_string_axioms;

/// `s` followed by spaces up to `width` characters (left-aligned in a
/// column of that width; longer text is kept whole).
pub open spec fn pad_right(s: Seq<char>, width: nat) -> Seq<char> {
    if s.len() >= width {
        s
    } else {
        s + Seq::new((width - s.len()) as nat, |i: int| ' ')
    }
}

/// The selector column of a picker row: its number, or nothing.
pub open spec fn selector_text(selector: Option<usize>) -> Seq<char> {
    match selector {
        Some(k) => decimal_text(k as nat),
        None => Seq::empty(),
    }
}

/// The `WHAT` column of a picker row: the command, marked when busy.
pub open spec fn what_text(row: PickerRow) -> Seq<char> {
    match row.state {
        SessionState::Free => row.current_command@,
        SessionState::Busy => row.current_command@ + " (busy)"@,
    }
}

/// The `STATE` column of the listing.
pub open spec fn state_text(state: SessionState) -> Seq<char> {
    match state {
        SessionState::Free => "free"@,
        SessionState::Busy => "busy"@,
    }
}

/// One line of the picker: `#`, `INIT`, `DETACH`, `WHAT`.
pub open spec fn picker_line(sel: Seq<char>, init: Seq<char>, detach: Seq<char>, what: Seq<char>) -> Seq<
    char,
> {
    "  "@ + pad_right(sel, 3) + " "@ + pad_right(init, 20) + " "@ + pad_right(detach, 20) + " "@
        + what + "\n"@
}

/// One line of the listing: `ID`, `INIT`, `DETACH`, `STATE`, `WHAT`.
pub open spec fn list_line(
    id: Seq<char>,
    init: Seq<char>,
    detach: Seq<char>,
    state: Seq<char>,
    what: Seq<char>,
) -> Seq<char> {
    pad_right(id, 12) + " "@ + pad_right(init, 20) + " "@ + pad_right(detach, 20) + " "@
        + pad_right(state, 6) + " "@ + what + "\n"@
}

/// The line of `row` in the picker (`picker`) or in the listing.
pub open spec fn row_line(row: PickerRow, picker: bool) -> Seq<char> {
    if picker {
        picker_line(selector_text(row.selector), row.init_time@, row.detach_time@, what_text(row))
    } else {
        list_line(
            row.session_id@,
            row.init_time@,
            row.detach_time@,
            state_text(row.state),
            row.current_command@,
        )
    }
}

/// The lines of `rows`, in order.
pub open spec fn rows_text(rows: Seq<PickerRow>, picker: bool) -> Seq<char>
    decreases rows.len(),
{
    if rows.len() == 0 {
        Seq::empty()
    } else {
        rows_text(rows.drop_last(), picker) + row_line(rows.last(), picker)
    }
}

/// The session table: in the picker, a header, one line per session (free
/// sessions carry their number, busy ones are marked) and a last line that
/// offers a new session; in the listing, a header and one line per session
/// naming it and its state.
pub open spec fn session_table(rows: Seq<PickerRow>, picker: bool) -> Seq<char> {
    if picker {
        picker_line("#"@, "INIT"@, "DETACH"@, "WHAT"@) + rows_text(rows, true) + "  "@
            + pad_right("n"@, 3) + " (new session)\n\n"@
    } else {
        list_line("ID"@, "INIT"@, "DETACH"@, "STATE"@, "WHAT"@) + rows_text(rows, false)
    }
}

/// A padded column starts with its text, is as wide as the column or as the
/// text, whichever is wider, and is filled with spaces after the text.
pub proof fn lemma_pad_right_shape(s: Seq<char>, width: nat)
    ensures
        pad_right(s, width).len() == (if s.len() >= width {
            s.len()
        } else {
            width
        }),
        pad_right(s, width).subrange(0, s.len() as int) == s,
        forall|i: int|
            s.len() <= i < pad_right(s, width).len() ==> #[trigger] pad_right(s, width)[i] == ' ',
{
    assert(pad_right(s, width).subrange(0, s.len() as int) =~= s);
}

/// The listing of no session is its header line alone.
pub proof fn lemma_listing_header()
    ensures
        session_table(Seq::empty(), false)
            == "ID           INIT                 DETACH               STATE  WHAT\n"@,
{
    reveal_strlit("ID");
    reveal_strlit("INIT");
    reveal_strlit("DETACH");
    reveal_strlit("STATE");
    reveal_strlit("WHAT");
    reveal_strlit(" ");
    reveal_strlit("\n");
    reveal_strlit("ID           INIT                 DETACH               STATE  WHAT\n");
    assert(rows_text(Seq::<PickerRow>::empty(), false) =~= Seq::<char>::empty());
    assert(session_table(Seq::empty(), false)
        =~= "ID           INIT                 DETACH               STATE  WHAT\n"@);
}

/// The listing holds one line per session, in order, whatever the session's
/// state: listing one more session appends exactly its line, which starts
/// with its id padded to 12 columns, then its times, `free` or `busy` in the
/// `STATE` column, and its command.
pub proof fn lemma_listing_line_per_session(rows: Seq<PickerRow>, row: PickerRow)
    ensures
        session_table(rows.push(row), false) == session_table(rows, false) + pad_right(
            row.session_id@,
            12,
        ) + " "@ + pad_right(row.init_time@, 20) + " "@ + pad_right(row.detach_time@, 20) + " "@
            + pad_right(
            if row.state == SessionState::Free {
                "free"@
            } else {
                "busy"@
            },
            6,
        ) + " "@ + row.current_command@ + "\n"@,
{
    let all = rows.push(row);
    assert(all.drop_last() =~= rows);
    assert(all.last() == row);
    let head = list_line("ID"@, "INIT"@, "DETACH"@, "STATE"@, "WHAT"@);
    lemma_concat_associative(head, rows_text(rows, false), row_line(row, false));
}

/// The picker with no session to choose is its header and the line that
/// offers a new session.
pub proof fn lemma_picker_header()
    ensures
        session_table(Seq::empty(), true) == "  #   INIT                 DETACH               WHAT\n  n   (new session)\n\n"@,
{
    reveal_strlit("#");
    reveal_strlit("INIT");
    reveal_strlit("DETACH");
    reveal_strlit("WHAT");
    reveal_strlit(" ");
    reveal_strlit("  ");
    reveal_strlit("\n");
    reveal_strlit("n");
    reveal_strlit(" (new session)\n\n");
    reveal_strlit("  #   INIT                 DETACH               WHAT\n  n   (new session)\n\n");
    assert(rows_text(Seq::<PickerRow>::empty(), true) =~= Seq::<char>::empty());
    assert(session_table(Seq::empty(), true) =~= "  #   INIT                 DETACH               WHAT\n  n   (new session)\n\n"@);
}

/// The picker's last line, which offers a new session.
proof fn lemma_picker_footer()
    ensures
        "  "@ + pad_right("n"@, 3) + " (new session)\n\n"@ == "  n   (new session)\n\n"@,
{
    reveal_strlit("  ");
    reveal_strlit("n");
    reveal_strlit(" (new session)\n\n");
    reveal_strlit("  n   (new session)\n\n");
    assert("  "@ + pad_right("n"@, 3) + " (new session)\n\n"@ =~= "  n   (new session)\n\n"@);
}

/// The picker holds a header, one line per session in order, and last the
/// line that offers a new session: offering one more session puts its line
/// just before that last line. A session's line carries its number when it
/// has one, its times, and its command, marked ` (busy)` when it is busy.
pub proof fn lemma_picker_line_per_session(rows: Seq<PickerRow>, row: PickerRow)
    ensures
        ({
            let last = "  n   (new session)\n\n"@;
            let before = session_table(rows, true);
            let body = before.subrange(0, before.len() - last.len());
            &&& before.len() >= last.len()
            &&& before == body + last
            &&& session_table(rows.push(row), true) == body + "  "@ + pad_right(
                match row.selector {
                    Some(k) => decimal_text(k as nat),
                    None => Seq::empty(),
                },
                3,
            ) + " "@ + pad_right(row.init_time@, 20) + " "@ + pad_right(row.detach_time@, 20) + " "@
                + row.current_command@ + (if row.state == SessionState::Busy {
                " (busy)"@
            } else {
                Seq::empty()
            }) + "\n"@ + last
        }),
{
    lemma_picker_footer();
    let last = "  n   (new session)\n\n"@;
    let head = picker_line("#"@, "INIT"@, "DETACH"@, "WHAT"@);
    let rt = rows_text(rows, true);
    let body = head + rt;
    let sp2 = "  "@;
    let padn = pad_right("n"@, 3);
    let tail = " (new session)\n\n"@;
    lemma_concat_associative(body, sp2, padn);
    lemma_concat_associative(body, sp2 + padn, tail);
    let before = session_table(rows, true);
    assert(before == body + last);
    assert((body + last).subrange(0, body.len() as int) =~= body);
    let all = rows.push(row);
    assert(all.drop_last() =~= rows);
    assert(all.last() == row);
    let line = row_line(row, true);
    assert(rows_text(all, true) == rt + line);
    lemma_concat_associative(head, rt, line);
    let bl = body + line;
    lemma_concat_associative(bl, sp2, padn);
    lemma_concat_associative(bl, sp2 + padn, tail);
    assert(session_table(all, true) == bl + last);
    let cmd = row.current_command@;
    let suffix = if row.state == SessionState::Busy {
        " (busy)"@
    } else {
        Seq::empty()
    };
    assert(what_text(row) =~= cmd + suffix);
    let x2 = pad_right(selector_text(row.selector), 3);
    let x4 = pad_right(row.init_time@, 20);
    let x6 = pad_right(row.detach_time@, 20);
    let l2 = sp2 + x2;
    let l3 = l2 + " "@;
    let l4 = l3 + x4;
    let l5 = l4 + " "@;
    let l6 = l5 + x6;
    let l7 = l6 + " "@;
    let l8 = l7 + cmd;
    let l9 = l8 + suffix;
    let l10 = l9 + "\n"@;
    lemma_concat_associative(l7, cmd, suffix);
    assert(line == l10);
    lemma_concat_associative(body, sp2, x2);
    lemma_concat_associative(body, l2, " "@);
    lemma_concat_associative(body, l3, x4);
    lemma_concat_associative(body, l4, " "@);
    lemma_concat_associative(body, l5, x6);
    lemma_concat_associative(body, l6, " "@);
    lemma_concat_associative(body, l7, cmd);
    lemma_concat_associative(body, l8, suffix);
    lemma_concat_associative(body, l9, "\n"@);
}

/// Appends `s` padded to `width` characters.
fn push_padded(out: &mut String, s: &str, width: usize)
    ensures
        final(out)@ == old(out)@ + pad_right(s@, width as nat),
{
    out.append(s);
    let n = s.unicode_len();
    let mut k: usize = n;
    while k < width
        invariant
            n == s@.len(),
            n <= k,
            k <= width || n > width,
            n >= width ==> k == n,
            out@ == old(out)@ + s@ + Seq::new((k - n) as nat, |i: int| ' '),
        decreases width - k,
    {
        push_char(out, ' ');
        k = k + 1;
        proof {
            assert(out@ =~= old(out)@ + s@ + Seq::new((k - n) as nat, |i: int| ' '));
        }
    }
    proof {
        assert(out@ =~= old(out)@ + pad_right(s@, width as nat));
    }
}

fn push_picker_line(out: &mut String, sel: &str, init: &str, detach: &str, what: &str)
    ensures
        final(out)@ == old(out)@ + picker_line(sel@, init@, detach@, what@),
{
    out.append("  ");
    push_padded(out, sel, 3);
    out.append(" ");
    push_padded(out, init, 20);
    out.append(" ");
    push_padded(out, detach, 20);
    out.append(" ");
    out.append(what);
    out.append("\n");
    proof {
        assert(out@ =~= old(out)@ + picker_line(sel@, init@, detach@, what@));
    }
}

fn push_list_line(out: &mut String, id: &str, init: &str, detach: &str, state: &str, what: &str)
    ensures
        final(out)@ == old(out)@ + list_line(id@, init@, detach@, state@, what@),
{
    push_padded(out, id, 12);
    out.append(" ");
    push_padded(out, init, 20);
    out.append(" ");
    push_padded(out, detach, 20);
    out.append(" ");
    push_padded(out, state, 6);
    out.append(" ");
    out.append(what);
    out.append("\n");
    proof {
        assert(out@ =~= old(out)@ + list_line(id@, init@, detach@, state@, what@));
    }
}

fn push_row_line(out: &mut String, row: &PickerRow, picker: bool)
    ensures
        final(out)@ == old(out)@ + row_line(*row, picker),
{
    if picker {
        let mut sel = String::new();
        match row.selector {
            Some(k) => {
                push_decimal(&mut sel, k as u128);
            },
            None => {},
        }
        proof {
            assert(sel@ =~= selector_text(row.selector));
        }
        let mut what = row.current_command.clone();
        match row.state {
            SessionState::Free => {},
            SessionState::Busy => {
                what.append(" (busy)");
            },
        }
        push_picker_line(
            out,
            sel.as_str(),
            row.init_time.as_str(),
            row.detach_time.as_str(),
            what.as_str(),
        );
    } else {
        let state = match row.state {
            SessionState::Free => "free",
            SessionState::Busy => "busy",
        };
        push_list_line(
            out,
            row.session_id.as_str(),
            row.init_time.as_str(),
            row.detach_time.as_str(),
            state,
            row.current_command.as_str(),
        );
    }
}

/// Renders the picker (`picker`) or the listing of `rows`.
pub fn render_session_table(rows: &Vec<PickerRow>, picker: bool) -> (r: String)
    ensures
        r@ == session_table(rows@, picker),
{
    let mut out = String::new();
    if picker {
        push_picker_line(&mut out, "#", "INIT", "DETACH", "WHAT");
    } else {
        push_list_line(&mut out, "ID", "INIT", "DETACH", "STATE", "WHAT");
    }
    let ghost head = out@;
    let n = rows.len();
    let mut i: usize = 0;
    proof {
        assert(rows@.subrange(0, 0) =~= Seq::<PickerRow>::empty());
        assert(head + rows_text(rows@.subrange(0, 0), picker) =~= head);
    }
    while i < n
        invariant
            i <= n,
            n == rows@.len(),
            out@ == head + rows_text(rows@.subrange(0, i as int), picker),
        decreases n - i,
    {
        push_row_line(&mut out, &rows[i], picker);
        proof {
            let next = rows@.subrange(0, i + 1);
            assert(next.drop_last() =~= rows@.subrange(0, i as int));
            assert(next.last() == rows@[i as int]);
            assert(out@ =~= head + rows_text(next, picker));
        }
        i = i + 1;
    }
    proof {
        assert(rows@.subrange(0, n as int) =~= rows@);
    }
    if picker {
        out.append("  ");
        push_padded(&mut out, "n", 3);
        out.append(" (new session)\n\n");
    }
    proof {
        assert(out@ =~= session_table(rows@, picker));
    }
    out
}

} // verus!
