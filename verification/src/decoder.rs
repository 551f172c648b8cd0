//! Token decoding and program loading.
//!
//! A token encodes an opcode by its length alone: it must alternate strictly
//! between the marker character `'p'` at even positions and the terminator
//! character `'s'` at odd ones, be at least `MINIMUM_LETTERS` characters long,
//! and its length less that minimum must index the eight-entry opcode table.
//! Source text is split on ASCII whitespace; tokens that do not decode are
//! dropped silently, so arbitrary commentary may sit between valid tokens.

use vstd::prelude::*;
use vstd::string::StrSliceExecFns;

verus! {

/// One of the eight primitive operations the machine can execute.
#[derive(Copy, Clone, PartialEq, Eq, Structural, Debug)]
pub enum CatInstruction {
    MoveRight,
    MoveLeft,
    Increment,
    Decrement,
    JumpForward,
    JumpBack,
    Output,
    Input,
}

/// The least length a token may have and still denote an opcode.
pub const MINIMUM_LETTERS: usize = 3;

/// The character a well-formed token holds at position `i`: the marker `'p'`
/// at even positions, the terminator `'s'` at odd ones.
pub open spec fn expected_char(i: int) -> char {
    if i % 2 == 0 {
        'p'
    } else {
        's'
    }
}

/// Whether a token alternates strictly between marker and terminator,
/// starting with the marker.
pub open spec fn is_alternating(t: Seq<char>) -> bool {
    forall|i: int| 0 <= i < t.len() ==> #[trigger] t[i] == expected_char(i)
}

/// The opcode at index `i` of the fixed opcode table, for indices 0 through 7.
pub open spec fn opcode_of_index(i: int) -> Option<CatInstruction> {
    if i == 0 {
        Some(CatInstruction::MoveRight)
    } else if i == 1 {
        Some(CatInstruction::MoveLeft)
    } else if i == 2 {
        Some(CatInstruction::Increment)
    } else if i == 3 {
        Some(CatInstruction::Decrement)
    } else if i == 4 {
        Some(CatInstruction::JumpForward)
    } else if i == 5 {
        Some(CatInstruction::JumpBack)
    } else if i == 6 {
        Some(CatInstruction::Output)
    } else if i == 7 {
        Some(CatInstruction::Input)
    } else {
        None
    }
}

/// What a single token decodes to: the opcode indexed by its length less the
/// minimum, provided the token alternates and is long enough; anything else
/// decodes to nothing.
pub open spec fn decode_token(t: Seq<char>) -> Option<CatInstruction> {
    if is_alternating(t) && t.len() >= MINIMUM_LETTERS {
        opcode_of_index(t.len() - MINIMUM_LETTERS)
    } else {
        None
    }
}

/// Whether `c` separates tokens in source text: the ASCII whitespace
/// characters.
pub open spec fn is_token_sep(c: char) -> bool {
    c == ' ' || c == '\t' || c == '\n' || c == '\x0C' || c == '\r'
}

/// The instructions one completed token contributes to a program: one opcode,
/// or none when the token does not decode.
pub open spec fn token_instructions(t: Seq<char>) -> Seq<CatInstruction> {
    match decode_token(t) {
        Some(op) => seq![op],
        None => Seq::empty(),
    }
}

/// The instructions emitted while scanning `s` with the partially read token
/// `cur`: a separator completes the pending token, any other character extends
/// it. The token still pending when `s` ends contributes nothing here.
pub open spec fn emitted(s: Seq<char>, cur: Seq<char>) -> Seq<CatInstruction>
    decreases s.len(),
{
    if s.len() == 0 {
        Seq::empty()
    } else if is_token_sep(s[0]) {
        token_instructions(cur) + emitted(s.drop_first(), Seq::empty())
    } else {
        emitted(s.drop_first(), cur.push(s[0]))
    }
}

/// The token still pending after scanning `s` with the partially read token
/// `cur`.
pub open spec fn pending(s: Seq<char>, cur: Seq<char>) -> Seq<char>
    decreases s.len(),
{
    if s.len() == 0 {
        cur
    } else if is_token_sep(s[0]) {
        pending(s.drop_first(), Seq::empty())
    } else {
        pending(s.drop_first(), cur.push(s[0]))
    }
}

/// Everything a source text loads to: its whitespace-delimited tokens decoded
/// in order, with the tokens that fail to decode dropped.
pub open spec fn load(s: Seq<char>) -> Seq<CatInstruction> {
    emitted(s, Seq::empty()) + token_instructions(pending(s, Seq::empty()))
}

/// Scanning a concatenation scans the left part first and hands its pending
/// token on to the right part.
pub proof fn lemma_scan_concat(a: Seq<char>, b: Seq<char>, cur: Seq<char>)
    ensures
        emitted(a + b, cur) == emitted(a, cur) + emitted(b, pending(a, cur)),
        pending(a + b, cur) == pending(b, pending(a, cur)),
    decreases a.len(),
{
    if a.len() == 0 {
        assert(a + b =~= b);
        assert(emitted(a, cur) + emitted(b, cur) =~= emitted(b, cur));
    } else {
        assert((a + b).drop_first() =~= a.drop_first() + b);
        if is_token_sep(a[0]) {
            lemma_scan_concat(a.drop_first(), b, Seq::empty());
            assert(token_instructions(cur) + (emitted(a.drop_first(), Seq::empty()) + emitted(
                b,
                pending(a.drop_first(), Seq::empty()),
            )) =~= (token_instructions(cur) + emitted(a.drop_first(), Seq::empty())) + emitted(
                b,
                pending(a, cur),
            ));
        } else {
            lemma_scan_concat(a.drop_first(), b, cur.push(a[0]));
        }
    }
}

/// A single separator flushes the pending token and leaves nothing pending.
pub proof fn lemma_sep_scan(c: char, cur: Seq<char>)
    requires
        is_token_sep(c),
    ensures
        emitted(seq![c], cur) == token_instructions(cur),
        pending(seq![c], cur) == Seq::<char>::empty(),
{
    assert(seq![c].drop_first() =~= Seq::<char>::empty());
    assert(emitted(seq![c], cur) == token_instructions(cur) + emitted(
        Seq::<char>::empty(),
        Seq::empty(),
    ));
    assert(emitted(Seq::<char>::empty(), Seq::<char>::empty()) == Seq::<CatInstruction>::empty());
    assert(emitted(seq![c], cur) =~= token_instructions(cur));
    assert(pending(seq![c], cur) == pending(Seq::<char>::empty(), Seq::<char>::empty()));
}

/// A stretch of text without a separator emits nothing and only lengthens the
/// pending token.
pub proof fn lemma_sep_free_scan(s: Seq<char>, cur: Seq<char>)
    requires
        forall|i: int| 0 <= i < s.len() ==> !is_token_sep(#[trigger] s[i]),
    ensures
        emitted(s, cur) == Seq::<CatInstruction>::empty(),
        pending(s, cur) == cur + s,
    decreases s.len(),
{
    if s.len() == 0 {
        assert(cur + s =~= cur);
    } else {
        assert(forall|i: int|
            0 <= i < s.drop_first().len() ==> !is_token_sep(#[trigger] s.drop_first()[i]));
        lemma_sep_free_scan(s.drop_first(), cur.push(s[0]));
        assert(cur.push(s[0]) + s.drop_first() =~= cur + s);
    }
}

/// Junk never reaches the program: source text with a whitespace-delimited
/// word that decodes to nothing loads exactly as the text with that word and
/// one of its separators taken out.
pub proof fn lemma_junk_word_ignored(before: Seq<char>, junk: Seq<char>, after: Seq<char>)
    requires
        forall|i: int| 0 <= i < junk.len() ==> !is_token_sep(#[trigger] junk[i]),
        decode_token(junk) is None,
    ensures
        load(before + seq![' '] + junk + seq![' '] + after) == load(before + seq![' '] + after),
{
    let sep = seq![' '];
    let b1 = before + sep;
    let empty = Seq::<char>::empty();
    lemma_scan_concat(before, sep, empty);
    lemma_sep_scan(' ', pending(before, empty));
    assert(pending(b1, empty) == empty);
    // The left text, b1 + junk + sep + after, scanned left to right.
    lemma_scan_concat(b1, junk, empty);
    lemma_sep_free_scan(junk, empty);
    assert(pending(b1 + junk, empty) =~= junk);
    assert(emitted(b1 + junk, empty) =~= emitted(b1, empty));
    lemma_scan_concat(b1 + junk, sep, empty);
    lemma_sep_scan(' ', junk);
    assert(emitted(b1 + junk + sep, empty) =~= emitted(b1, empty));
    assert(pending(b1 + junk + sep, empty) == empty);
    lemma_scan_concat(b1 + junk + sep, after, empty);
    assert(emitted(b1 + junk + sep + after, empty) =~= emitted(b1, empty) + emitted(after, empty));
    assert(pending(b1 + junk + sep + after, empty) == pending(after, empty));
    // The right text, b1 + after, scanned the same way.
    lemma_scan_concat(b1, after, empty);
    assert(emitted(b1 + after, empty) =~= emitted(b1, empty) + emitted(after, empty));
    assert(load(b1 + junk + sep + after) =~= load(b1 + after));
}

/// Whether `c` separates tokens in source text.
fn is_token_sep_char(c: char) -> (r: bool)
    ensures
        r == is_token_sep(c),
{
    c == ' ' || c == '\t' || c == '\n' || c == '\x0C' || c == '\r'
}

impl CatInstruction {
    /// Reads a token's numeric value: its length, accepted only when the token
    /// alternates strictly between `'p'` and `'s'` starting with `'p'`.
    pub fn pspspspsps_to_usize(s: &str) -> (r: Result<usize, ()>)
        ensures
            s@.len() <= usize::MAX,
            is_alternating(s@) ==> r == Ok::<usize, ()>(s@.len() as usize),
            !is_alternating(s@) ==> r == Err::<usize, ()>(()),
    {
        let len = s.unicode_len();
        let mut i: usize = 0;
        while i < len
            invariant
                i <= len,
                len == s@.len(),
                forall|k: int| 0 <= k < i ==> #[trigger] s@[k] == expected_char(k),
            decreases len - i,
        {
            let c = s.get_char(i);
            let matches_position = if i % 2 == 0 {
                c == 'p'
            } else {
                c == 's'
            };
            if !matches_position {
                proof {
                    assert(s@[i as int] != expected_char(i as int));
                }
                return Err(());
            }
            i = i + 1;
        }
        Ok(len)
    }

    /// Maps a numeric index to its opcode, for indices 0 through 7.
    pub fn from_index(value: usize) -> (r: Result<CatInstruction, ()>)
        ensures
            r == (match opcode_of_index(value as int) {
                Some(op) => Ok::<CatInstruction, ()>(op),
                None => Err::<CatInstruction, ()>(()),
            }),
    {
        match value {
            0 => Ok(CatInstruction::MoveRight),
            1 => Ok(CatInstruction::MoveLeft),
            2 => Ok(CatInstruction::Increment),
            3 => Ok(CatInstruction::Decrement),
            4 => Ok(CatInstruction::JumpForward),
            5 => Ok(CatInstruction::JumpBack),
            6 => Ok(CatInstruction::Output),
            7 => Ok(CatInstruction::Input),
            _ => Err(()),
        }
    }

    /// Decodes one whitespace-free token into an opcode, rejecting tokens that
    /// break the alternation rule, fall short of the minimum length, or map
    /// past the end of the opcode table.
    pub fn from_token(s: &str) -> (r: Result<CatInstruction, ()>)
        ensures
            r == (match decode_token(s@) {
                Some(op) => Ok::<CatInstruction, ()>(op),
                None => Err::<CatInstruction, ()>(()),
            }),
    {
        match Self::pspspspsps_to_usize(s) {
            Ok(value) => {
                if value < MINIMUM_LETTERS {
                    Err(())
                } else {
                    Self::from_index(value - MINIMUM_LETTERS)
                }
            },
            Err(_) => Err(()),
        }
    }

    /// Loads source text: splits it on ASCII whitespace, decodes every token,
    /// and silently drops the tokens that do not decode, so the result holds
    /// the successfully decoded opcodes in source order.
    pub fn pspspspsps_to_vec(code: &str) -> (r: Vec<CatInstruction>)
        ensures
            r@ == load(code@),
    {
        let len = code.unicode_len();
        let mut instructions: Vec<CatInstruction> = Vec::new();
        let mut start: usize = 0;
        let mut i: usize = 0;
        proof {
            assert(code@.subrange(0, 0) =~= Seq::<char>::empty());
        }
        while i < len
            invariant
                len == code@.len(),
                start <= i <= len,
                instructions@ == emitted(code@.subrange(0, i as int), Seq::empty()),
                pending(code@.subrange(0, i as int), Seq::empty()) == code@.subrange(
                    start as int,
                    i as int,
                ),
            decreases len - i,
        {
            let ghost prefix = code@.subrange(0, i as int);
            let ghost cur = code@.subrange(start as int, i as int);
            let c = code.get_char(i);
            proof {
                assert(code@.subrange(0, i + 1) =~= prefix + seq![c]);
                lemma_scan_concat(prefix, seq![c], Seq::empty());
                assert(seq![c].drop_first() =~= Seq::<char>::empty());
            }
            if is_token_sep_char(c) {
                proof {
                    assert(emitted(seq![c], cur) == token_instructions(cur) + emitted(
                        Seq::<char>::empty(),
                        Seq::empty(),
                    ));
                    assert(emitted(Seq::<char>::empty(), Seq::<char>::empty()) == Seq::<
                        CatInstruction,
                    >::empty());
                    assert(emitted(seq![c], cur) =~= token_instructions(cur));
                    assert(pending(seq![c], cur) == pending(
                        Seq::<char>::empty(),
                        Seq::<char>::empty(),
                    ));
                    assert(pending(code@.subrange(0, i + 1), Seq::empty()) =~= Seq::<
                        char,
                    >::empty());
                }
                let token = code.substring_char(start, i);
                if let Ok(op) = Self::from_token(token) {
                    instructions.push(op);
                }
                proof {
                    assert(instructions@ =~= emitted(prefix, Seq::empty()) + token_instructions(
                        cur,
                    ));
                    assert(emitted(code@.subrange(0, i + 1), Seq::empty()) =~= emitted(
                        prefix,
                        Seq::empty(),
                    ) + token_instructions(cur));
                    assert(code@.subrange(i + 1, i + 1) =~= Seq::<char>::empty());
                }
                start = i + 1;
            } else {
                proof {
                    assert(emitted(seq![c], cur) == emitted(Seq::<char>::empty(), cur.push(c)));
                    assert(emitted(seq![c], cur) =~= Seq::<CatInstruction>::empty());
                    assert(emitted(code@.subrange(0, i + 1), Seq::empty()) =~= emitted(
                        prefix,
                        Seq::empty(),
                    ));
                    assert(pending(seq![c], cur) == pending(Seq::<char>::empty(), cur.push(c)));
                    assert(pending(code@.subrange(0, i + 1), Seq::empty()) =~= cur.push(c));
                    assert(cur.push(c) =~= code@.subrange(start as int, i + 1));
                }
            }
            i = i + 1;
        }
        proof {
            assert(code@.subrange(0, len as int) =~= code@);
        }
        let token = code.substring_char(start, len);
        if let Ok(op) = Self::from_token(token) {
            instructions.push(op);
        }
        proof {
            assert(instructions@ =~= load(code@));
        }
        instructions
    }
}

} // verus!
