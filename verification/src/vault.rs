//! Level 12: the final four-room gauntlet. Room one is a keypad whose access
//! code is computed at run time; room three hides the vault's lock behind a
//! heap pointer; the player advances through the rooms in order.
use vstd::prelude::*;
use vstd::string::StringSliceAdditionalSpecFns;
use vstd::utf8::*;

verus! {

/// Number of rooms in the gauntlet.
pub const ROOM_COUNT: u32 = 4;
/// Length of the access code.
pub const CODE_LEN: usize = 6;

/// The access code's seed after `steps` mixing rounds: start at 7, then
/// multiply by 13 and add three times the round number (32-bit wrapping).
pub open spec fn code_after(steps: nat) -> u32
    decreases steps,
{
    if steps == 0 {
        7
    } else {
        let prev = code_after((steps - 1) as nat);
        (((prev as int * 13) % 0x1_0000_0000 + (steps - 1) * 3) % 0x1_0000_0000) as u32
    }
}

/// The six mixing rounds give 33888220.
proof fn lemma_code_value()
    ensures
        code_after(6) == 33888220u32,
{
    reveal_with_fuel(code_after, 7);
}

/// The character of decimal digit `d`.
pub open spec fn digit_char(d: nat) -> char {
    ((48 + d) as u8) as char
}

/// Decimal digits of `n` (below a million), zero-padded to six.
pub open spec fn six_digits(n: nat) -> Seq<char> {
    seq![
        digit_char((n / 100000) % 10),
        digit_char((n / 10000) % 10),
        digit_char((n / 1000) % 10),
        digit_char((n / 100) % 10),
        digit_char((n / 10) % 10),
        digit_char(n % 10),
    ]
}

/// The code the keypad accepts: the seed's last six decimal digits.
pub open spec fn access_code_text() -> Seq<char> {
    six_digits((code_after(6) as nat) % 1_000_000)
}

/// The accepted code, spelled out.
pub proof fn lemma_access_code_text()
    ensures
        access_code_text() == seq!['8', '8', '8', '2', '2', '0'],
{
    lemma_code_value();
    assert(access_code_text() =~= seq!['8', '8', '8', '2', '2', '0']);
}

/// The mixing rounds, as the keypad computes them.
pub fn compute_access_code() -> (code: u32)
    ensures
        code == code_after(6),
{
    let mut code: u32 = 7;
    let mut i: u32 = 0;
    while i < 6
        invariant
            i <= 6,
            code == code_after(i as nat),
        decreases 6 - i,
    {
        code = code.wrapping_mul(13).wrapping_add(i * 3);
        i += 1;
    }
    code
}

/// The ASCII bytes of the access code.
fn access_code_bytes() -> (b: [u8; 6])
    ensures
        forall|i: int| 0 <= i < 6 ==> #[trigger] b@[i] == access_code_text()[i] as u8,
        forall|i: int| 0 <= i < 6 ==> 48 <= #[trigger] b@[i] <= 57,
{
    let code = compute_access_code() % 1_000_000;
    proof {
        lemma_code_value();
        lemma_access_code_text();
    }
    assert(code == 888220);
    let out: [u8; 6] = [
        48 + (code / 100000 % 10) as u8,
        48 + (code / 10000 % 10) as u8,
        48 + (code / 1000 % 10) as u8,
        48 + (code / 100 % 10) as u8,
        48 + (code / 10 % 10) as u8,
        48 + (code % 10) as u8,
    ];
    proof {
        lemma_access_code_text();
    }
    out
}

/// Whether typed digits (as bytes) are the access code.
pub fn access_code_matches(input: &[u8]) -> (ok: bool)
    ensures
        ok == (input@.len() == 6 && forall|i: int| 0 <= i < 6 ==> #[trigger] input@[i]
            == access_code_text()[i] as u8),
{
    let expected = access_code_bytes();
    if input.len() != 6 {
        return false;
    }
    let mut i: usize = 0;
    while i < 6
        invariant
            input@.len() == 6,
            i <= 6,
            forall|j: int| 0 <= j < 6 ==> #[trigger] expected@[j] == access_code_text()[j] as u8,
            forall|j: int| 0 <= j < i ==> #[trigger] input@[j] == access_code_text()[j] as u8,
        decreases 6 - i,
    {
        if input[i] != expected[i] {
            return false;
        }
        i += 1;
    }
    true
}

/// Whether the text is exactly the six-digit access code.
pub fn verify_access_code(input: &str) -> (ok: bool)
    ensures
        ok == (input@ == access_code_text()),
{
    let bytes = input.as_bytes();
    let ok = access_code_matches(bytes);
    proof {
        lemma_access_code_text();
        let code = access_code_text();
        assert(is_ascii_chars(code));
        is_ascii_chars_encode_utf8(code);
        encode_utf8_decode_utf8(input@);
        encode_utf8_decode_utf8(code);
        if ok {
            assert(input.spec_bytes() =~= encode_utf8(code));
        }
        if input@ == code {
            assert(input.spec_bytes() == encode_utf8(code));
        }
    }
    ok
}

/// A key press on the keypad.
pub enum KeypadKey<'a> {
    Character(&'a str),
    Enter,
    Backspace,
    Other,
}

/// What the keypad did with one key press.
#[derive(Clone, Copy, Debug, PartialEq, Eq, Structural)]
pub enum KeypadOutcome {
    /// Keep typing.
    Continue,
    /// The code was right: room one is cleared.
    Accepted,
    /// The code was wrong: the entry was wiped.
    Rejected,
}

/// An ASCII digit byte.
pub open spec fn is_digit_byte(b: u8) -> bool {
    48 <= b <= 57
}

/// Digits of `typed` appended to `entry`, stopping once the entry holds six.
pub open spec fn type_digits(entry: Seq<u8>, typed: Seq<u8>) -> Seq<u8>
    decreases typed.len(),
{
    if typed.len() == 0 {
        entry
    } else {
        let next = if is_digit_byte(typed[0]) && entry.len() < 6 {
            entry.push(typed[0])
        } else {
            entry
        };
        type_digits(next, typed.drop_first())
    }
}

/// One typed byte: an ASCII digit `0`..`9` is appended while the entry
/// holds fewer than six; any other byte, or any byte once six are held,
/// leaves the entry unchanged.
pub proof fn lemma_type_one_byte(entry: Seq<u8>, b: u8)
    ensures
        48 <= b <= 57 && entry.len() < 6 ==> type_digits(entry, seq![b]) == entry.push(b),
        !(48 <= b <= 57) || entry.len() >= 6 ==> type_digits(entry, seq![b]) == entry,
{
    reveal_with_fuel(type_digits, 2);
    let t = seq![b];
    assert(t.drop_first() =~= Seq::<u8>::empty());
    assert(t[0] == b);
}

/// Typing text in two pieces is typing the whole text.
pub proof fn lemma_type_digits_split(entry: Seq<u8>, t: Seq<u8>, u: Seq<u8>)
    ensures
        type_digits(entry, t + u) == type_digits(type_digits(entry, t), u),
    decreases t.len(),
{
    if t.len() > 0 {
        assert((t + u).drop_first() =~= t.drop_first() + u);
        assert((t + u)[0] == t[0]);
        let next = if is_digit_byte(t[0]) && entry.len() < 6 { entry.push(t[0]) } else { entry };
        lemma_type_digits_split(next, t.drop_first(), u);
    } else {
        assert(t + u =~= u);
    }
}

/// Digits that fit are appended exactly: typing only ASCII digits into an
/// entry with room for all of them appends them in order.
pub proof fn lemma_digits_that_fit_appended(entry: Seq<u8>, t: Seq<u8>)
    requires
        forall|i: int| 0 <= i < t.len() ==> 48 <= #[trigger] t[i] <= 57,
        entry.len() + t.len() <= 6,
    ensures
        type_digits(entry, t) == entry + t,
    decreases t.len(),
{
    if t.len() > 0 {
        assert forall|i: int| 0 <= i < t.drop_first().len() implies 48 <= #[trigger] t.drop_first()[i] <= 57 by {
            assert(t.drop_first()[i] == t[i + 1]);
        }
        lemma_digits_that_fit_appended(entry.push(t[0]), t.drop_first());
        assert(entry.push(t[0]) + t.drop_first() =~= entry + t);
    } else {
        assert(entry + t =~= entry);
    }
}

/// The keypad entry: up to six digits.
pub struct Keypad {
    entry: Vec<u8>,
}

impl Keypad {
    pub closed spec fn entry(&self) -> Seq<u8> {
        self.entry@
    }

    /// The entry holds at most six digits, all of them ASCII digits.
    pub open spec fn well_formed(&self) -> bool {
        &&& self.entry().len() <= 6
        &&& forall|i: int| 0 <= i < self.entry().len() ==> is_digit_byte(#[trigger] self.entry()[i])
    }

    /// An empty keypad.
    pub fn new() -> (k: Self)
        ensures
            k.entry() == Seq::<u8>::empty(),
            k.well_formed(),
    {
        Keypad { entry: Vec::new() }
    }

    /// Number of digits typed (the display shows blanks for the rest).
    pub fn entry_len(&self) -> (n: usize)
        ensures
            n == self.entry().len(),
    {
        self.entry.len()
    }

    /// The digits typed so far, as bytes.
    pub fn entry_bytes(&self) -> (b: &[u8])
        ensures
            b@ == self.entry(),
    {
        self.entry.as_slice()
    }

    /// Handles one key press: digits are appended while fewer than six are
    /// entered; Backspace deletes one; Enter checks the code and wipes a wrong entry.
    pub fn handle_key(&mut self, key: &KeypadKey) -> (out: KeypadOutcome)
        requires
            old(self).well_formed(),
        ensures
            final(self).well_formed(),
            match *key {
                KeypadKey::Character(c) => out == KeypadOutcome::Continue && final(self).entry()
                    == type_digits(old(self).entry(), c.spec_bytes()),
                KeypadKey::Backspace => out == KeypadOutcome::Continue && final(self).entry() == (
                if old(self).entry().len() == 0 {
                    old(self).entry()
                } else {
                    old(self).entry().drop_last()
                }),
                KeypadKey::Enter => if old(self).entry().len() == 6 && forall|i: int|
                    0 <= i < 6 ==> #[trigger] old(self).entry()[i] == access_code_text()[i] as u8 {
                    out == KeypadOutcome::Accepted && final(self).entry() == old(self).entry()
                } else {
                    out == KeypadOutcome::Rejected && final(self).entry() == Seq::<u8>::empty()
                },
                KeypadKey::Other => out == KeypadOutcome::Continue && final(self).entry() == old(
                    self,
                ).entry(),
            },
    {
        match key {
            KeypadKey::Character(c) => {
                let bytes = c.as_bytes();
                let mut i: usize = 0;
                proof {
                    assert(bytes@.skip(0) =~= bytes@);
                }
                while i < bytes.len()
                    invariant
                        i <= bytes@.len(),
                        bytes@ == c.spec_bytes(),
                        self.well_formed(),
                        type_digits(self.entry@, bytes@.skip(i as int)) == type_digits(
                            old(self).entry@,
                            c.spec_bytes(),
                        ),
                    decreases bytes@.len() - i,
                {
                    proof {
                        assert(bytes@.skip(i as int).drop_first() =~= bytes@.skip(i as int + 1));
                    }
                    let b = bytes[i];
                    if 48u8 <= b && b <= 57u8 && self.entry.len() < 6 {
                        self.entry.push(b);
                    }
                    i += 1;
                }
                proof {
                    assert(bytes@.skip(bytes@.len() as int) =~= Seq::<u8>::empty());
                    assert(bytes@.skip(0) =~= bytes@);
                }
                KeypadOutcome::Continue
            },
            KeypadKey::Backspace => {
                self.entry.pop();
                KeypadOutcome::Continue
            },
            KeypadKey::Enter => {
                if access_code_matches(self.entry.as_slice()) {
                    KeypadOutcome::Accepted
                } else {
                    self.entry.clear();
                    KeypadOutcome::Rejected
                }
            },
            KeypadKey::Other => KeypadOutcome::Continue,
        }
    }
}

/// Which room the player is in and which rooms are cleared.
pub struct RoomProgress {
    pub current_room: u32,
    pub rooms_cleared: [bool; 4],
}

impl RoomProgress {
    /// Start in room one with nothing cleared.
    pub fn new() -> (p: Self)
        ensures
            p.current_room == 0,
            forall|i: int| 0 <= i < 4 ==> !#[trigger] p.rooms_cleared@[i],
    {
        RoomProgress { current_room: 0, rooms_cleared: [false; 4] }
    }

    /// Marks `room` cleared.
    pub fn clear_room(&mut self, room: u32)
        requires
            room < ROOM_COUNT,
        ensures
            final(self).current_room == old(self).current_room,
            final(self).rooms_cleared@ == old(self).rooms_cleared@.update(room as int, true),
    {
        self.rooms_cleared[room as usize] = true;
    }

    /// Moves on to the next room. Returns whether the player must be moved
    /// into a new room; past the last room the player stays in the last one.
    pub fn advance_room(&mut self) -> (moved: bool)
        requires
            old(self).current_room < ROOM_COUNT,
        ensures
            final(self).rooms_cleared == old(self).rooms_cleared,
            moved == (old(self).current_room + 1 < ROOM_COUNT),
            final(self).current_room == (if moved {
                old(self).current_room + 1
            } else {
                ROOM_COUNT - 1
            }),
            final(self).current_room < ROOM_COUNT,
    {
        let next_room = self.current_room + 1;
        if next_room >= ROOM_COUNT {
            self.current_room = ROOM_COUNT - 1;
            return false;
        }
        self.current_room = next_room;
        true
    }
}

/// The vault's lock, between decoy pin words, on the heap.
pub struct VaultLock {
    pub _pins: [u32; 3],
    pub locked: bool,
}

/// The vault door in room three.
pub struct VaultDoor {
    pub lock: Box<VaultLock>,
}

impl Default for VaultDoor {
    fn default() -> (v: Self)
        ensures
            v.lock.locked,
            v.lock._pins@ == seq![0xDEADu32, 0xBEEFu32, 0xCAFEu32],
    {
        let v = VaultDoor { lock: Box::new(VaultLock { _pins: [0xDEAD, 0xBEEF, 0xCAFE], locked: true }) };
        assert(v.lock._pins@ =~= seq![0xDEADu32, 0xBEEFu32, 0xCAFEu32]);
        v
    }
}

/// Room three is cleared once every guardian is down and the vault is unlocked.
pub fn vault_room_cleared(guardians_dead: bool, vault: &VaultDoor) -> (cleared: bool)
    ensures
        cleared == (guardians_dead && !vault.lock.locked),
{
    guardians_dead && !vault.lock.locked
}

} // verus!
