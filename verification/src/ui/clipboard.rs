//! The escape sequence by which a terminal copies text.
use vstd::prelude::*;
use crate::text;

verus! {

/// The character that stands for six bits.
pub open spec fn sextet(v: int) -> char {
    if v < 26 {
        ('A' as int + v) as char
    } else if v < 52 {
        ('a' as int + v - 26) as char
    } else if v < 62 {
        ('0' as int + v - 52) as char
    } else if v == 62 {
        '+'
    } else {
        '/'
    }
}

/// Byte `i`, or 0 past the end.
pub open spec fn byte_at(bytes: Seq<u8>, i: int) -> int {
    if i < bytes.len() {
        bytes[i] as int
    } else {
        0
    }
}

/// The four characters of the first three bytes. Characters that no byte
/// reaches into are `=`.
pub open spec fn quad(bytes: Seq<u8>) -> Seq<char> {
    let n = byte_at(bytes, 0) * 65536 + byte_at(bytes, 1) * 256 + byte_at(bytes, 2);
    seq![
        sextet(n / 262144),
        sextet(n / 4096 % 64),
        if bytes.len() > 1 {
            sextet(n / 64 % 64)
        } else {
            '='
        },
        if bytes.len() > 2 {
            sextet(n % 64)
        } else {
            '='
        },
    ]
}

/// The first three bytes, or fewer.
pub open spec fn triple(bytes: Seq<u8>) -> Seq<u8> {
    if bytes.len() >= 3 {
        bytes.take(3)
    } else {
        bytes
    }
}

/// `bytes` in base64, with `=` at the end where the last group is not full.
pub open spec fn base64(bytes: Seq<u8>) -> Seq<char>
    decreases bytes.len(),
{
    if bytes.len() == 0 {
        seq![]
    } else if bytes.len() <= 3 {
        quad(bytes)
    } else {
        quad(bytes.take(3)) + base64(bytes.skip(3))
    }
}

/// The character that stands for six bits.
fn sextet_char(v: u32) -> (r: char)
    requires
        v < 64,
    ensures
        r == sextet(v as int),
{
    if v < 26 {
        (65 + v as u8) as char
    } else if v < 52 {
        (71 + v as u8) as char
    } else if v < 62 {
        (v as u8 - 4) as char
    } else if v == 62 {
        '+'
    } else {
        '/'
    }
}

/// Adds the four characters of up to three bytes from `at` on.
fn push_quad(out: &mut String, input: &[u8], at: usize)
    requires
        at < input@.len(),
    ensures
        final(out)@ == old(out)@ + quad(triple(input@.skip(at as int))),
{
    let ghost part = triple(input@.skip(at as int));
    let left: usize = input.len() - at;
    let b0: u32 = input[at] as u32;
    let b1: u32 = if left > 1 {
        input[at + 1] as u32
    } else {
        0
    };
    let b2: u32 = if left > 2 {
        input[at + 2] as u32
    } else {
        0
    };
    let n: u32 = b0 * 65536 + b1 * 256 + b2;
    assert(b0 == byte_at(part, 0));
    assert(b1 == byte_at(part, 1));
    assert(b2 == byte_at(part, 2));
    out.push(sextet_char(n / 262144));
    out.push(sextet_char(n / 4096 % 64));
    out.push(
        if left > 1 {
            sextet_char(n / 64 % 64)
        } else {
            '='
        },
    );
    out.push(
        if left > 2 {
            sextet_char(n % 64)
        } else {
            '='
        },
    );
    assert(out@ =~= old(out)@ + quad(part));
}

/// `input` in base64.
pub fn base64_encode(input: &[u8]) -> (r: String)
    ensures
        r@ == base64(input@),
{
    let mut out = String::new();
    let mut at: usize = 0;
    proof {
        assert(input@.skip(0) =~= input@);
        assert(out@ + base64(input@) =~= base64(input@));
    }
    while at < input.len()
        invariant
            at <= input@.len(),
            base64(input@) == out@ + base64(input@.skip(at as int)),
        decreases input@.len() - at,
    {
        let ghost before = out@;
        let ghost rest = input@.skip(at as int);
        push_quad(&mut out, input, at);
        if input.len() - at <= 3 {
            assert(triple(rest) =~= rest);
            return out;
        }
        proof {
            assert(triple(rest) =~= rest.take(3));
            assert(rest.skip(3) =~= input@.skip(at + 3));
            assert(before + (quad(rest.take(3)) + base64(rest.skip(3))) =~= out@ + base64(
                rest.skip(3),
            ));
        }
        at = at + 3;
    }
    assert(out@ + base64(input@.skip(at as int)) =~= out@);
    out
}

/// The six bits that a character stands for.
pub open spec fn sextet_value(c: char) -> int {
    if 'A' <= c <= 'Z' {
        c as int - 'A' as int
    } else if 'a' <= c <= 'z' {
        c as int - 'a' as int + 26
    } else if '0' <= c <= '9' {
        c as int - '0' as int + 52
    } else if c == '+' {
        62
    } else {
        63
    }
}

/// The bytes of four characters.
pub open spec fn unquad(s: Seq<char>) -> Seq<u8> {
    let n = sextet_value(s[0]) * 262144 + sextet_value(s[1]) * 4096 + if s[2] == '=' {
        0
    } else {
        sextet_value(s[2]) * 64
    } + if s[3] == '=' {
        0
    } else {
        sextet_value(s[3])
    };
    let all = seq![(n / 65536) as u8, (n / 256 % 256) as u8, (n % 256) as u8];
    if s[2] == '=' {
        all.take(1)
    } else if s[3] == '=' {
        all.take(2)
    } else {
        all
    }
}

/// The bytes that base64 text stands for.
pub open spec fn unbase64(s: Seq<char>) -> Seq<u8>
    decreases s.len(),
{
    if s.len() < 4 {
        seq![]
    } else {
        unquad(s.take(4)) + unbase64(s.skip(4))
    }
}

proof fn lemma_sextet(v: int)
    requires
        0 <= v < 64,
    ensures
        sextet_value(sextet(v)) == v,
        sextet(v) != '=',
{
}

proof fn lemma_sextets(n: int)
    requires
        0 <= n < 16777216,
    ensures
        0 <= n / 262144 < 64,
        n == n / 262144 * 262144 + n / 4096 % 64 * 4096 + n / 64 % 64 * 64 + n % 64,
{
}

proof fn lemma_bytes(b0: int, b1: int, b2: int)
    requires
        0 <= b0 < 256,
        0 <= b1 < 256,
        0 <= b2 < 256,
    ensures
        ({
            let n = b0 * 65536 + b1 * 256 + b2;
            &&& 0 <= n < 16777216
            &&& n / 65536 == b0
            &&& n / 256 % 256 == b1
            &&& n % 256 == b2
            &&& b2 == 0 ==> n % 64 == 0
            &&& b1 == 0 && b2 == 0 ==> n / 64 % 64 == 0
        }),
{
}

proof fn lemma_quad(bytes: Seq<u8>)
    requires
        1 <= bytes.len() <= 3,
    ensures
        unquad(quad(bytes)) == bytes,
        quad(bytes).len() == 4,
{
    let b0 = byte_at(bytes, 0);
    let b1 = byte_at(bytes, 1);
    let b2 = byte_at(bytes, 2);
    let n = b0 * 65536 + b1 * 256 + b2;
    lemma_bytes(b0, b1, b2);
    lemma_sextets(n);
    lemma_sextet(n / 262144);
    lemma_sextet(n / 4096 % 64);
    lemma_sextet(n / 64 % 64);
    lemma_sextet(n % 64);
    let s = quad(bytes);
    let all = seq![b0 as u8, b1 as u8, b2 as u8];
    if bytes.len() == 1 {
        assert(s[2] == '=' && s[3] == '=');
        assert(unquad(s) == all.take(1));
        assert(all.take(1) =~= bytes);
    } else if bytes.len() == 2 {
        assert(s[2] != '=' && s[3] == '=');
        assert(unquad(s) == all.take(2));
        assert(all.take(2) =~= bytes);
    } else {
        assert(s[2] != '=' && s[3] != '=');
        assert(unquad(s) == all);
        assert(all =~= bytes);
    }
}

/// Base64 keeps what was encoded.
#[verifier::spinoff_prover]
#[verifier::rlimit(60)]
pub proof fn law_base64_round_trip(bytes: Seq<u8>)
    ensures
        unbase64(base64(bytes)) == bytes,
        base64(bytes).len() == (bytes.len() + 2) / 3 * 4,
    decreases bytes.len(),
{
    if bytes.len() == 0 {
        assert(bytes =~= seq![]);
    } else if bytes.len() <= 3 {
        lemma_quad(bytes);
        let s = quad(bytes);
        assert(s.take(4) =~= s);
        assert(unbase64(s.skip(4)) =~= seq![]);
        assert(bytes + seq![] =~= bytes);
    } else {
        lemma_quad(bytes.take(3));
        law_base64_round_trip(bytes.skip(3));
        let s = base64(bytes);
        let q = quad(bytes.take(3));
        assert(s.take(4) =~= q);
        assert(s.skip(4) =~= base64(bytes.skip(3)));
        assert(bytes.take(3) + bytes.skip(3) =~= bytes);
    }
}

// ---------------------------------------------------------------------------
// The escape sequence

/// `s` with every escape character doubled.
pub open spec fn doubled(s: Seq<char>) -> Seq<char>
    decreases s.len(),
{
    if s.len() == 0 {
        seq![]
    } else if s.last() == '\u{1b}' {
        doubled(s.drop_last()).push('\u{1b}').push('\u{1b}')
    } else {
        doubled(s.drop_last()).push(s.last())
    }
}

/// The sequence that sets the clipboard to `bytes`. Inside tmux it is wrapped
/// so that it reaches the terminal around it.
pub open spec fn clipboard_sequence(bytes: Seq<u8>, in_tmux: bool) -> Seq<char> {
    let plain = "\u{1b}]52;c;"@ + base64(bytes) + "\u{7}"@;
    if in_tmux {
        "\u{1b}Ptmux;"@ + doubled(plain) + "\u{1b}\\"@
    } else {
        plain
    }
}

/// `s` with every escape character doubled.
fn double_escapes(s: &str) -> (r: String)
    ensures
        r@ == doubled(s@),
{
    let cs = text::chars_of(s);
    let mut r = String::new();
    for i in 0..cs.len()
        invariant
            r@ == doubled(cs@.take(i as int)),
    {
        proof {
            assert(cs@.take(i + 1).drop_last() =~= cs@.take(i as int));
            assert(cs@.take(i + 1).last() == cs@[i as int]);
        }
        r.push(cs[i]);
        if cs[i] == '\u{1b}' {
            r.push('\u{1b}');
        }
    }
    assert(cs@.take(cs@.len() as int) =~= cs@);
    r
}

/// The sequence that sets the clipboard to `content`.
pub fn osc52(content: &str, in_tmux: bool) -> (r: String)
    ensures
        r@ == clipboard_sequence(vstd::utf8::encode_utf8(content@), in_tmux),
{
    let payload = base64_encode(content.as_bytes());
    let plain = text::cat3("\u{1b}]52;c;", payload.as_str(), "\u{7}");
    if in_tmux {
        let body = double_escapes(plain.as_str());
        text::cat3("\u{1b}Ptmux;", body.as_str(), "\u{1b}\\")
    } else {
        plain
    }
}

/// `s` with every pair of escape characters made one.
pub open spec fn halved(s: Seq<char>) -> Seq<char>
    decreases s.len(),
{
    if s.len() == 0 {
        seq![]
    } else if s.len() > 1 && s.last() == '\u{1b}' && s[s.len() - 2] == '\u{1b}' {
        halved(s.drop_last().drop_last()).push('\u{1b}')
    } else {
        halved(s.drop_last()).push(s.last())
    }
}

proof fn lemma_halved(s: Seq<char>)
    ensures
        halved(doubled(s)) == s,
    decreases s.len(),
{
    if s.len() > 0 {
        let before = s.drop_last();
        lemma_halved(before);
        if s.last() == '\u{1b}' {
            let d = doubled(before).push('\u{1b}').push('\u{1b}');
            assert(d.drop_last().drop_last() =~= doubled(before));
        } else {
            assert(doubled(before).push(s.last()).drop_last() =~= doubled(before));
        }
        assert(before.push(s.last()) =~= s);
    } else {
        assert(s =~= seq![]);
    }
}

/// What is sent to the terminal gives back the bytes that were copied. Inside tmux
/// the same is sent, every escape character twice, for tmux to hand on.
pub proof fn law_copied_bytes(bytes: Seq<u8>)
    ensures
        ({
            let sent = clipboard_sequence(bytes, false);
            &&& exists|code: Seq<char>|
                sent == "\u{1b}]52;c;"@ + code + "\u{7}"@ && #[trigger] unbase64(code) == bytes
            &&& exists|body: Seq<char>|
                clipboard_sequence(bytes, true) == "\u{1b}Ptmux;"@ + body + "\u{1b}\\"@
                    && #[trigger] halved(body) == sent
        }),
{
    law_base64_round_trip(bytes);
    let sent = clipboard_sequence(bytes, false);
    lemma_halved(sent);
    assert(unbase64(base64(bytes)) == bytes);
    assert(halved(doubled(sent)) == sent);
}

} // verus!
