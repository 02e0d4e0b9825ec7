//! The level-select menu: which levels are listed, the scoreboard line, the
//! keyboard shortcuts (digit N launches the Nth listed level, `?` reveals the
//! hidden levels) and gamepad navigation.
use crate::roster::{LevelInfo, LevelRow, Screen, visible, visible_count, visible_rows};
use crate::scoreboard::Scoreboard;
use vstd::prelude::*;
use vstd::string::StringSliceAdditionalSpecFns;
use vstd::utf8::*;

verus! {

/// Level ids the player can currently pick, in menu order.
pub fn visible_levels(revealed: bool) -> (ids: Vec<u32>)
    ensures
        ids@ == visible_rows(revealed).map_values(|r: LevelRow| r.0),
{
    let v = visible(revealed);
    let mut ids: Vec<u32> = Vec::new();
    let mut i: usize = 0;
    while i < v.len()
        invariant
            i <= v@.len(),
            v@.map_values(|l: LevelInfo| l.row()) == visible_rows(revealed),
            ids@ == v@.take(i as int).map_values(|l: LevelInfo| l.id),
        decreases v@.len() - i,
    {
        ids.push(v[i].id);
        proof {
            assert(v@.take(i as int + 1) =~= v@.take(i as int).push(v@[i as int]));
            assert(ids@ =~= v@.take(i as int + 1).map_values(|l: LevelInfo| l.id));
        }
        i += 1;
    }
    proof {
        assert(v@.take(v@.len() as int) =~= v@);
        assert(ids@ =~= visible_rows(revealed).map_values(|r: LevelRow| r.0)) by {
            assert forall|k: int| 0 <= k < ids@.len() implies ids@[k] == visible_rows(revealed).map_values(
                |r: LevelRow| r.0,
            )[k] by {
                assert(v@.map_values(|l: LevelInfo| l.row())[k] == v@[k].row());
            }
        }
    }
    ids
}

/// Listed levels that are solved.
pub open spec fn solved_rows(sb: Set<u32>, revealed: bool) -> Seq<LevelRow> {
    visible_rows(revealed).filter(|r: LevelRow| sb.contains(r.0))
}

/// Solved / total for the scoreboard line: hidden levels only count (in
/// either number) once revealed, so the menu never advertises them.
pub fn solved_and_total(scoreboard: &Scoreboard, revealed: bool) -> (st: (u32, u32))
    ensures
        st.0 == solved_rows(scoreboard@, revealed).len(),
        st.1 == visible_rows(revealed).len(),
{
    let v = visible(revealed);
    let ghost rows = v@.map_values(|l: LevelInfo| l.row());
    let mut solved: u32 = 0;
    let mut i: usize = 0;
    proof {
        crate::roster::lemma_visible_rows(revealed);
        assert(rows.len() == v@.len());
    }
    while i < v.len()
        invariant
            i <= v@.len(),
            v@.len() <= 7,
            rows == visible_rows(revealed),
            rows == v@.map_values(|l: LevelInfo| l.row()),
            solved == rows.take(i as int).filter(|r: LevelRow| scoreboard@.contains(r.0)).len(),
            solved <= i,
        decreases v@.len() - i,
    {
        proof {
            reveal_with_fuel(Seq::filter, 1);
            assert(rows.take(i as int + 1).drop_last() =~= rows.take(i as int));
            assert(rows[i as int] == v@[i as int].row());
        }
        if scoreboard.is_solved(v[i].id) {
            solved = solved + 1;
        }
        i += 1;
    }
    proof {
        assert(rows.take(v@.len() as int) =~= rows);
    }
    let total = visible_count(revealed);
    (solved, total)
}

/// The highest digit shortcut shown in the hint: the number of listed
/// levels, but never more than nine (shortcuts are single digits).
pub fn shortcut_count(revealed: bool) -> (n: u32)
    ensures
        n == (if visible_rows(revealed).len() < 9 { visible_rows(revealed).len() as int } else { 9 }),
{
    let n = visible_count(revealed);
    if n < 9 {
        n
    } else {
        9
    }
}

/// The character of a single decimal digit.
pub open spec fn digit_char(d: nat) -> char {
    ((48 + d) as u8) as char
}

/// The hint line's text for shortcuts `1..=n`.
pub open spec fn hint_text(n: nat) -> Seq<char> {
    "Press 1-"@ + seq![digit_char(n)] + " or click to start  |  D-pad + A on gamepad"@
}

/// Formats the keyboard-shortcut hint line (`std::format!`): a single-digit
/// count formats as that digit.
#[verifier::external_body]
fn format_hint(n: u32) -> (s: String)
    requires
        n <= 9,
    ensures
        s@ == hint_text(n as nat),
{
    format!("Press 1-{} or click to start  |  D-pad + A on gamepad", n)
}

/// The keyboard-shortcut hint line, sized to the roster.
pub fn shortcut_hint(revealed: bool) -> (s: String)
    ensures
        s@ == hint_text(if visible_rows(revealed).len() < 9 { visible_rows(revealed).len() } else { 9 }),
{
    let n = shortcut_count(revealed);
    format_hint(n)
}

/// An ASCII decimal digit.
pub open spec fn is_digit(c: char) -> bool {
    '0' <= c <= '9'
}

/// Value of a run of decimal digits.
pub open spec fn digits_value(s: Seq<char>) -> nat
    decreases s.len(),
{
    if s.len() == 0 {
        0
    } else {
        digits_value(s.drop_last()) * 10 + ((s.last() as nat) - 48) as nat
    }
}

/// Every character of `s` is a decimal digit.
pub open spec fn all_digits(s: Seq<char>) -> bool {
    forall|i: int| 0 <= i < s.len() ==> is_digit(#[trigger] s[i])
}

/// What `str::parse::<usize>` accepts: an optional `+` followed by at least
/// one decimal digit, with a value that fits; anything else is an error.
pub open spec fn parse_usize_spec(s: Seq<char>) -> Option<usize> {
    let body = if s.len() > 0 && s[0] == '+' { s.drop_first() } else { s };
    if body.len() > 0 && all_digits(body) && digits_value(body) <= usize::MAX {
        Some(digits_value(body) as usize)
    } else {
        None
    }
}

/// `str::parse::<usize>`, keeping the value and dropping the error kind. Its
/// documentation: an optional `+` sign followed by digits; whitespace, other
/// characters, an empty string and overflow are errors.
#[verifier::external_body]
fn parse_usize(s: &str) -> (r: Option<usize>)
    ensures
        r == parse_usize_spec(s@),
{
    s.parse::<usize>().ok()
}

/// Whether the key text is exactly `?`.
fn is_question_mark(key: &str) -> (b: bool)
    ensures
        b == (key@ == "?"@),
{
    let bytes = key.as_bytes();
    let b = bytes.len() == 1 && bytes[0] == 63u8;
    proof {
        reveal_strlit("?");
        let q = "?"@;
        assert(is_ascii_chars(q));
        is_ascii_chars_encode_utf8(q);
        encode_utf8_decode_utf8(key@);
        encode_utf8_decode_utf8(q);
        if b {
            assert(key.spec_bytes() =~= encode_utf8(q));
        }
    }
    b
}

/// What a key press in the menu does.
#[derive(Clone, Copy, Debug, PartialEq, Eq, Structural)]
pub enum MenuKeyAction {
    /// `?`: reveal the hidden levels (for the rest of the session).
    RevealHidden,
    /// A digit shortcut: launch that listed level.
    Launch(Screen),
    /// Anything else.
    Ignore,
}

/// The action for the key text `key`, given whether hidden levels are revealed.
pub open spec fn menu_key_spec(revealed: bool, key: Seq<char>) -> MenuKeyAction {
    if key == "?"@ {
        MenuKeyAction::RevealHidden
    } else {
        match parse_usize_spec(key) {
            Some(n) => if 1 <= n <= visible_rows(revealed).len() {
                MenuKeyAction::Launch(Screen::Level(visible_rows(revealed)[n - 1].0))
            } else {
                MenuKeyAction::Ignore
            },
            None => MenuKeyAction::Ignore,
        }
    }
}

/// Digit `n`, for `n` from one up to the number of listed levels, launches
/// the `n`th listed level.
pub proof fn lemma_digit_launches_listed_level(revealed: bool, n: nat)
    requires
        1 <= n <= visible_rows(revealed).len(),
    ensures
        menu_key_spec(revealed, seq![digit_char(n)]) == MenuKeyAction::Launch(
            Screen::Level(visible_rows(revealed)[n - 1].0),
        ),
{
    crate::roster::lemma_visible_rows(revealed);
    reveal_strlit("?");
    let key = seq![digit_char(n)];
    assert(key != "?"@) by {
        assert(key[0] != "?"@[0]);
    }
    reveal_with_fuel(digits_value, 2);
    assert(key.drop_last() =~= Seq::<char>::empty());
    assert(digits_value(key) == n);
}

/// `?` reveals the hidden levels; `0` and any other single character that is
/// not a digit launch nothing.
pub proof fn lemma_other_keys(revealed: bool, c: char)
    requires
        c != '?',
        !('1' <= c <= '9'),
    ensures
        menu_key_spec(revealed, "?"@) == MenuKeyAction::RevealHidden,
        menu_key_spec(revealed, seq![c]) == MenuKeyAction::Ignore,
{
    reveal_strlit("?");
    let key = seq![c];
    assert(key[0] == c && key.len() == 1);
    assert(key != "?"@) by {
        assert(key[0] != "?"@[0]);
    }
    reveal_with_fuel(digits_value, 2);
    assert(key.drop_last() =~= Seq::<char>::empty());
    assert(key.drop_first() =~= Seq::<char>::empty());
    if c == '0' {
        assert(digits_value(key) == 0);
        assert(parse_usize_spec(key) == Some(0usize));
    } else if c != '+' {
        assert(!is_digit(key[0]));
        assert(!all_digits(key));
    } else {
        assert(parse_usize_spec(key).is_none());
    }
}

/// A key launches only a level that is listed right now.
pub proof fn lemma_launch_is_listed(revealed: bool, key: Seq<char>)
    ensures
        menu_key_spec(revealed, key) matches MenuKeyAction::Launch(s) ==> exists|i: int|
            0 <= i < visible_rows(revealed).len() && s == Screen::Level(#[trigger] visible_rows(revealed)[i].0),
{
    if let MenuKeyAction::Launch(s) = menu_key_spec(revealed, key) {
        let n = parse_usize_spec(key).unwrap();
        assert(s == Screen::Level(visible_rows(revealed)[n - 1].0));
    }
}

/// Digit N launches the Nth listed level; `?` reveals hidden levels, which
/// then gain shortcuts too.
pub fn menu_key(revealed: bool, key: &str) -> (a: MenuKeyAction)
    ensures
        a == menu_key_spec(revealed, key@),
{
    if is_question_mark(key) {
        return MenuKeyAction::RevealHidden;
    }
    match parse_usize(key) {
        Some(n) => {
            let v = visible(revealed);
            proof {
                assert(v@.map_values(|l: LevelInfo| l.row()).len() == v@.len());
            }
            if n >= 1 && n <= v.len() {
                proof {
                    assert(v@.map_values(|l: LevelInfo| l.row())[n - 1] == v@[n - 1].row());
                }
                MenuKeyAction::Launch(v[n - 1].screen())
            } else {
                MenuKeyAction::Ignore
            }
        },
        None => MenuKeyAction::Ignore,
    }
}

/// Moves the gamepad selection by `delta`, clamped to the listed levels
/// (an unset selection counts as the first entry).
pub fn menu_nav(selection: Option<usize>, delta: i32, len: usize) -> (idx: usize)
    requires
        len >= 1,
        len - 1 <= i32::MAX,
        selection matches Some(s) ==> s <= i32::MAX,
        i32::MIN <= (match selection { Some(s) => s as int, None => 0int }) + delta <= i32::MAX,
    ensures
        ({
            let cur = match selection { Some(s) => s as int, None => 0int };
            let want = cur + delta;
            idx == (if want < 0 { 0 } else if want > len - 1 { len - 1 } else { want })
        }),
        idx < len,
{
    let cur: i32 = match selection {
        Some(s) => s as i32,
        None => 0,
    };
    let want = cur + delta;
    let hi = (len - 1) as i32;
    if want < 0 {
        0
    } else if want > hi {
        hi as usize
    } else {
        want as usize
    }
}

/// The screen the gamepad's confirm button launches: the selected listed level.
pub fn menu_confirm(revealed: bool, selection: Option<usize>) -> (s: Option<Screen>)
    ensures
        s == (match selection {
            Some(i) => if i < visible_rows(revealed).len() {
                Some(Screen::Level(visible_rows(revealed)[i as int].0))
            } else {
                None::<Screen>
            },
            None => None::<Screen>,
        }),
{
    match selection {
        Some(i) => {
            let v = visible(revealed);
            proof {
                assert(v@.map_values(|l: LevelInfo| l.row()).len() == v@.len());
            }
            if i < v.len() {
                proof {
                    assert(v@.map_values(|l: LevelInfo| l.row())[i as int] == v@[i as int].row());
                }
                Some(v[i].screen())
            } else {
                None
            }
        },
        None => None,
    }
}

} // verus!
