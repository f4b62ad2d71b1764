//! The shared command-intake token: where it lives, how a new one looks,
//! how it is read back from its file, and how a presented token is compared.
//!
//! One token serves every agent on the machine; the first agent to start
//! creates it and the others read it.  Creating and reading the file is the
//! application's job; this module holds the rules around it.

use crate::text::{chars_of, is_ws, string_of, trim, trim_chars, trim_end, trim_start};
use rand::RngCore;
use vstd::prelude::*;

verus! {

/// Where the shared token is kept on Unix.
pub fn token_path() -> (p: String)
    ensures
        p@ == "/etc/sb-agent/intake.token"@,
{
    String::from_str("/etc/sb-agent/intake.token")
}

/// The lowercase hexadecimal digit for a value below 16.
pub open spec fn hex_digit(n: u8) -> char {
    if n < 10 {
        (48 + n) as char
    } else {
        (87 + n) as char
    }
}

/// Each byte of `b` as two lowercase hexadecimal digits, high nibble first.
pub open spec fn hex_lower(b: Seq<u8>) -> Seq<char>
    decreases b.len(),
{
    if b.len() == 0 {
        seq![]
    } else {
        hex_lower(b.drop_last()) + seq![hex_digit(b.last() >> 4), hex_digit(b.last() & 15)]
    }
}

/// What a generated token looks like: 32 bytes written as 64 lowercase
/// hexadecimal digits.
pub open spec fn is_generated_token(t: Seq<char>) -> bool {
    exists|b: Seq<u8>| b.len() == 32 && t == hex_lower(b)
}

fn hex_digit_exec(n: u8) -> (c: char)
    requires
        n < 16,
    ensures
        c == hex_digit(n),
{
    if n < 10 {
        (48 + n) as char
    } else {
        (87 + n) as char
    }
}

/// `bytes` as lowercase hexadecimal, two digits per byte.
pub fn to_hex_lower(bytes: &[u8]) -> (s: String)
    ensures
        s@ == hex_lower(bytes@),
{
    let mut out: Vec<char> = Vec::new();
    let mut i: usize = 0;
    while i < bytes.len()
        invariant
            i <= bytes.len(),
            out@ == hex_lower(bytes@.take(i as int)),
        decreases bytes.len() - i,
    {
        let b = bytes[i];
        assert(b >> 4 < 16 && b & 15 < 16) by (bit_vector);
        let hi = hex_digit_exec(b >> 4);
        let lo = hex_digit_exec(b & 15);
        out.push(hi);
        out.push(lo);
        proof {
            assert(bytes@.take(i + 1).drop_last() =~= bytes@.take(i as int));
            assert(bytes@.take(i + 1).last() == b);
            assert(out@ =~= hex_lower(bytes@.take(i + 1)));
        }
        i = i + 1;
    }
    assert(bytes@.take(bytes.len() as int) =~= bytes@);
    string_of(&out)
}

#[verifier::external_body]
/// 32 bytes from the thread-local generator (`rand::thread_rng().fill_bytes`).
/// They are random: nothing is stated of their values.  The generator
/// panics only when the operating system cannot seed it, whatever the call.
fn random_token_bytes() -> (bytes: [u8; 32]) {
    let mut bytes = [0u8; 32];
    rand::thread_rng().fill_bytes(&mut bytes);
    bytes
}

/// A fresh random token: 32 random bytes as 64 lowercase hexadecimal digits.
pub fn generate_token() -> (t: String)
    ensures
        is_generated_token(t@),
        t@.len() == 64,
{
    let bytes = random_token_bytes();
    let t = to_hex_lower(bytes.as_slice());
    proof {
        lemma_hex_len(bytes@);
    }
    t
}

proof fn lemma_hex_len(b: Seq<u8>)
    ensures
        hex_lower(b).len() == 2 * b.len(),
    decreases b.len(),
{
    if b.len() > 0 {
        lemma_hex_len(b.drop_last());
    }
}

/// Every character of `hex_lower(b)` is a digit or a letter from `a` to `f`.
proof fn lemma_hex_chars(b: Seq<u8>)
    ensures
        forall|i: int|
            0 <= i < hex_lower(b).len() ==> {
                let c = #[trigger] hex_lower(b)[i];
                ('0' <= c && c <= '9') || ('a' <= c && c <= 'f')
            },
    decreases b.len(),
{
    if b.len() > 0 {
        let d = b.drop_last();
        lemma_hex_chars(d);
        let x = b.last();
        assert(x >> 4 < 16 && x & 15 < 16) by (bit_vector);
        let h = hex_lower(d);
        let tail = seq![hex_digit(x >> 4), hex_digit(x & 15)];
        assert forall|i: int| 0 <= i < hex_lower(b).len() implies {
            let c = #[trigger] hex_lower(b)[i];
            ('0' <= c && c <= '9') || ('a' <= c && c <= 'f')
        } by {
            if i < h.len() {
                assert(hex_lower(b)[i] == h[i]);
            } else {
                assert(hex_lower(b)[i] == tail[i - h.len()]);
            }
        }
    }
}

/// A generated token is read back as it was written: the text of a token
/// file that holds it, with surrounding whitespace removed, is the token
/// itself, so `token_from_file_text` gives it back to every other agent.
pub proof fn lemma_generated_token_reads_back(t: Seq<char>)
    requires
        is_generated_token(t),
    ensures
        t.len() == 64,
        trim(t) == t,
{
    let b = choose|b: Seq<u8>| b.len() == 32 && t == hex_lower(b);
    lemma_hex_len(b);
    lemma_hex_chars(b);
    let c0 = t[0];
    let cl = t[t.len() - 1];
    assert(('0' <= c0 && c0 <= '9') || ('a' <= c0 && c0 <= 'f'));
    assert(('0' <= cl && cl <= '9') || ('a' <= cl && cl <= 'f'));
    assert(!is_ws(c0));
    assert(!is_ws(cl));
    assert(trim_start(t) == t);
    assert(trim_end(t) == t);
}

/// The token held in a token file's text: the text with surrounding
/// whitespace removed, or `None` when nothing but whitespace is there.
pub fn token_from_file_text(contents: &str) -> (t: Option<String>)
    ensures
        match t {
            Some(s) => trim(contents@).len() > 0 && s@ == trim(contents@),
            None => trim(contents@).len() == 0,
        },
{
    let chars = chars_of(contents);
    let trimmed = trim_chars(&chars);
    if trimmed.len() == 0 {
        None
    } else {
        Some(string_of(&trimmed))
    }
}

/// Whether `a` and `b` are the same text.  Every byte of equally long
/// inputs is visited whatever the earlier bytes were, so the time taken does
/// not reveal where the inputs first differ.
pub fn constant_time_eq(a: &str, b: &str) -> (r: bool)
    ensures
        r == (a@ == b@),
{
    let x = a.as_bytes();
    let y = b.as_bytes();
    proof {
        vstd::utf8::encode_utf8_decode_utf8(a@);
        vstd::utf8::encode_utf8_decode_utf8(b@);
    }
    if x.len() != y.len() {
        return false;
    }
    let mut diff: u8 = 0;
    let mut i: usize = 0;
    while i < x.len()
        invariant
            x.len() == y.len(),
            i <= x.len(),
            (diff == 0) == (forall|j: int| 0 <= j < i ==> x@[j] == y@[j]),
        decreases x.len() - i,
    {
        let p = x[i];
        let q = y[i];
        let d = diff;
        diff = d | (p ^ q);
        assert(((d | (p ^ q)) == 0) == (d == 0 && p == q)) by (bit_vector);
        proof {
            if diff == 0 {
                assert forall|j: int| 0 <= j < i + 1 implies x@[j] == y@[j] by {
                    if j == i {
                        assert(x@[j] == p && y@[j] == q);
                    }
                }
            }
        }
        i = i + 1;
    }
    proof {
        if diff == 0 {
            assert(x@ =~= y@);
        }
    }
    diff == 0
}

/// How often a process that lost the race to create the token file reads
/// it again before giving up.
pub const RACE_READ_ATTEMPTS: u32 = 5;

/// What to do after reading the token file again, having lost the race to
/// create it.
pub enum RaceStep {
    /// The winner's token is there: use it.
    Use(String),
    /// Not written yet: wait a moment and read again.
    WaitAndReread,
    /// Still nothing after the last attempt: report the creation error.
    GiveUp,
}

/// The decision after read number `attempt` (counting from 0) found `read`.
pub fn race_step(attempt: u32, read: Option<String>) -> (step: RaceStep)
    requires
        attempt < RACE_READ_ATTEMPTS,
    ensures
        step == (match read {
            Some(t) => RaceStep::Use(t),
            None => if attempt + 1 < RACE_READ_ATTEMPTS {
                RaceStep::WaitAndReread
            } else {
                RaceStep::GiveUp
            },
        }),
{
    match read {
        Some(t) => RaceStep::Use(t),
        None => {
            if attempt + 1 < RACE_READ_ATTEMPTS {
                RaceStep::WaitAndReread
            } else {
                RaceStep::GiveUp
            }
        },
    }
}

} // verus!
