//! Level 1: the password gate. The comparison walks the input byte by byte
//! (so a read watchpoint on the input fires even for short inputs), and the
//! prompt collects printable ASCII typed by the player.
use crate::roster::Screen;
use vstd::prelude::*;
use vstd::string::StringSliceAdditionalSpecFns;
use vstd::utf8::*;

verus! {

/// The level id of the password gate.
pub const ID: u32 = 1;

/// The secret, as characters.
pub open spec fn password() -> Seq<char> {
    "sesame"@
}

/// The secret, as the bytes the comparison walks.
pub open spec fn password_bytes() -> Seq<u8> {
    seq![115u8, 101u8, 115u8, 97u8, 109u8, 101u8]
}

/// The secret's UTF-8 encoding is exactly the bytes the comparison walks.
pub proof fn lemma_password_encoding()
    ensures
        encode_utf8(password()) == password_bytes(),
        password().len() == 6,
{
    reveal_strlit("sesame");
    assert(is_ascii_chars(password()));
    is_ascii_chars_encode_utf8(password());
    assert(encode_utf8(password()) =~= password_bytes());
}

/// Byte-by-byte comparison against the secret. Each byte is guarded only by
/// the bounds check it needs, one level per character; the innermost check
/// rejects a longer input that merely starts with the secret.
pub fn check_password_bytes(input: &[u8]) -> (ok: bool)
    ensures
        ok == (input@ == password_bytes()),
{
    let correct: [u8; 6] = [115u8, 101u8, 115u8, 97u8, 109u8, 101u8];
    assert(correct@ == password_bytes());
    if input.len() > 0 && input[0] == correct[0] {
        if input.len() > 1 && input[1] == correct[1] {
            if input.len() > 2 && input[2] == correct[2] {
                if input.len() > 3 && input[3] == correct[3] {
                    if input.len() > 4 && input[4] == correct[4] {
                        if input.len() > 5 && input[5] == correct[5] {
                            proof {
                                if input.len() == 6 {
                                    assert(input@ =~= password_bytes());
                                }
                            }
                            return input.len() == correct.len();
                        }
                    }
                }
            }
        }
    }
    false
}

/// Whether the typed text is the password.
pub fn check_password(input: &str) -> (ok: bool)
    ensures
        ok == (input@ == password()),
{
    let bytes = input.as_bytes();
    let ok = check_password_bytes(bytes);
    proof {
        lemma_password_encoding();
        encode_utf8_decode_utf8(input@);
        encode_utf8_decode_utf8(password());
    }
    ok
}

/// Level 1's private prompt state, layered on the shared level phase.
#[derive(Clone, Copy, PartialEq, Eq, Debug, Structural, Hash)]
pub enum ChallengePhase {
    Exploring,
    PasswordPrompt,
    WrongPassword,
}

/// The prompt state exists only while the password level is on screen, and
/// starts in `Exploring`.
pub fn should_exist(source: Screen) -> (r: Option<ChallengePhase>)
    ensures
        r == (if source == Screen::Level(ID) { Some(ChallengePhase::Exploring) } else {
            None::<ChallengePhase>
        }),
{
    match source {
        Screen::Level(id) => {
            if id == ID {
                Some(ChallengePhase::Exploring)
            } else {
                None
            }
        },
        Screen::Menu => None,
    }
}

/// A key press delivered to the open prompt.
pub enum PromptKey<'a> {
    /// Text produced by the key (may hold several characters).
    Character(&'a str),
    Enter,
    Backspace,
    Escape,
    Other,
}

/// What the prompt decided for one key press.
#[derive(Clone, Copy, PartialEq, Eq, Debug, Structural)]
pub enum PromptOutcome {
    /// Keep collecting input.
    Continue,
    /// Escape key: give up typing and go back to exploring.
    Cancelled,
    /// Enter with the right password: the level is won.
    Granted,
    /// Enter with a wrong password: show the wrong-password screen.
    Denied,
}

/// Printable ASCII as the prompt accepts it: a graphic character or a space.
pub open spec fn is_prompt_byte(b: u8) -> bool {
    (0x21 <= b && b <= 0x7e) || b == 0x20
}

/// The bytes of typed text that the prompt keeps.
pub open spec fn accepted(typed: Seq<u8>) -> Seq<u8> {
    typed.filter(|b: u8| is_prompt_byte(b))
}

/// The text typed so far and how many wrong guesses were made.
pub struct PasswordPrompt {
    text: Vec<u8>,
    attempts: u32,
}

impl PasswordPrompt {
    /// The typed text, as bytes (every byte is printable ASCII).
    pub closed spec fn text(&self) -> Seq<u8> {
        self.text@
    }

    pub closed spec fn attempts_spec(&self) -> u32 {
        self.attempts
    }

    /// An empty prompt with no attempts recorded.
    pub fn new() -> (p: Self)
        ensures
            p.text() == Seq::<u8>::empty(),
            p.attempts_spec() == 0,
    {
        PasswordPrompt { text: Vec::new(), attempts: 0 }
    }

    /// Number of wrong passwords submitted.
    pub fn attempts(&self) -> (n: u32)
        ensures
            n == self.attempts_spec(),
    {
        self.attempts
    }

    /// Number of characters typed (the display masks each with `*`).
    pub fn typed_len(&self) -> (n: usize)
        ensures
            n == self.text().len(),
    {
        self.text.len()
    }

    /// Handles one key press. Typed characters that are printable ASCII are
    /// appended (anything else is ignored); Backspace removes the last one;
    /// Enter checks the password, counting a wrong guess; Escape cancels.
    pub fn handle_key(&mut self, key: &PromptKey) -> (out: PromptOutcome)
        requires
            (*key is Enter && old(self).text() != password_bytes()) ==> old(self).attempts_spec()
                < u32::MAX,
        ensures
            match *key {
                PromptKey::Character(c) => {
                    &&& out == PromptOutcome::Continue
                    &&& final(self).text() == old(self).text() + accepted(c.spec_bytes())
                    &&& final(self).attempts_spec() == old(self).attempts_spec()
                },
                PromptKey::Backspace => {
                    &&& out == PromptOutcome::Continue
                    &&& final(self).text() == (if old(self).text().len() == 0 {
                        old(self).text()
                    } else {
                        old(self).text().drop_last()
                    })
                    &&& final(self).attempts_spec() == old(self).attempts_spec()
                },
                PromptKey::Enter => {
                    &&& final(self).text() == old(self).text()
                    &&& if old(self).text() == password_bytes() {
                        out == PromptOutcome::Granted && final(self).attempts_spec()
                            == old(self).attempts_spec()
                    } else {
                        out == PromptOutcome::Denied && final(self).attempts_spec()
                            == old(self).attempts_spec() + 1
                    }
                },
                PromptKey::Escape => {
                    &&& out == PromptOutcome::Cancelled
                    &&& final(self).text() == old(self).text()
                    &&& final(self).attempts_spec() == old(self).attempts_spec()
                },
                PromptKey::Other => {
                    &&& out == PromptOutcome::Continue
                    &&& final(self).text() == old(self).text()
                    &&& final(self).attempts_spec() == old(self).attempts_spec()
                },
            },
    {
        match key {
            PromptKey::Character(c) => {
                let bytes = c.as_bytes();
                let mut i: usize = 0;
                let ghost start = self.text@;
                while i < bytes.len()
                    invariant
                        i <= bytes@.len(),
                        bytes@ == c.spec_bytes(),
                        self.text@ == start + bytes@.take(i as int).filter(
                            |b: u8| is_prompt_byte(b),
                        ),
                        self.attempts == old(self).attempts,
                        start == old(self).text@,
                    decreases bytes@.len() - i,
                {
                    proof {
                        reveal_with_fuel(Seq::filter, 1);
                        assert(bytes@.take(i as int + 1).drop_last() =~= bytes@.take(i as int));
                    }
                    let b = bytes[i];
                    let ghost before = self.text@;
                    if (0x21u8 <= b && b <= 0x7eu8) || b == 0x20u8 {
                        self.text.push(b);
                        proof {
                            assert(self.text@ =~= start + bytes@.take(i as int + 1).filter(
                                |b: u8| is_prompt_byte(b),
                            ));
                        }
                    }
                    i += 1;
                }
                proof {
                    assert(bytes@.take(bytes@.len() as int) =~= bytes@);
                }
                PromptOutcome::Continue
            },
            PromptKey::Backspace => {
                self.text.pop();
                PromptOutcome::Continue
            },
            PromptKey::Enter => {
                if check_password_bytes(self.text.as_slice()) {
                    PromptOutcome::Granted
                } else {
                    self.attempts = self.attempts + 1;
                    PromptOutcome::Denied
                }
            },
            PromptKey::Escape => PromptOutcome::Cancelled,
            PromptKey::Other => PromptOutcome::Continue,
        }
    }
}

/// Everything the prompt stores is printable ASCII: appending the accepted
/// bytes of any key text keeps that true.
pub proof fn lemma_prompt_text_printable(text: Seq<u8>, typed: Seq<u8>)
    requires
        forall|i: int| 0 <= i < text.len() ==> is_prompt_byte(#[trigger] text[i]),
    ensures
        forall|i: int|
            0 <= i < (text + accepted(typed)).len() ==> is_prompt_byte(
                #[trigger] (text + accepted(typed))[i],
            ),
{
    let f = accepted(typed);
    assert forall|i: int| 0 <= i < (text + f).len() implies is_prompt_byte(#[trigger] (text + f)[i]) by {
        if i >= text.len() {
            typed.lemma_filter_pred(|b: u8| is_prompt_byte(b), i - text.len());
        }
    }
}

/// Printable ASCII text, space through tilde, is kept whole: typing it
/// appends exactly that text to the prompt.
pub proof fn lemma_printable_text_kept(t: Seq<u8>)
    requires
        forall|i: int| 0 <= i < t.len() ==> 0x20 <= #[trigger] t[i] <= 0x7e,
    ensures
        accepted(t) == t,
    decreases t.len(),
{
    reveal_with_fuel(Seq::filter, 1);
    if t.len() > 0 {
        assert forall|i: int| 0 <= i < t.drop_last().len() implies 0x20 <= #[trigger] t.drop_last()[i] <= 0x7e by {
            assert(t.drop_last()[i] == t[i]);
        }
        lemma_printable_text_kept(t.drop_last());
        assert(t.drop_last().push(t.last()) =~= t);
    }
}

/// Text with no printable byte (control bytes, bytes above tilde) leaves the
/// prompt unchanged.
pub proof fn lemma_unprintable_text_dropped(t: Seq<u8>)
    requires
        forall|i: int| 0 <= i < t.len() ==> !(0x20 <= #[trigger] t[i] <= 0x7e),
    ensures
        accepted(t) == Seq::<u8>::empty(),
    decreases t.len(),
{
    reveal_with_fuel(Seq::filter, 1);
    if t.len() > 0 {
        assert forall|i: int| 0 <= i < t.drop_last().len() implies !(0x20 <= #[trigger] t.drop_last()[i] <= 0x7e) by {
            assert(t.drop_last()[i] == t[i]);
        }
        lemma_unprintable_text_dropped(t.drop_last());
    }
}

/// Text typed in two pieces is kept piece by piece, in order.
pub proof fn lemma_accepted_piecewise(t: Seq<u8>, u: Seq<u8>)
    ensures
        accepted(t + u) == accepted(t) + accepted(u),
{
    Seq::filter_distributes_over_add(t, u, |b: u8| is_prompt_byte(b));
}

} // verus!
