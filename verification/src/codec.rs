//! The shell-encoded transfer path re-encodes arbitrary bytes as `printf`
//! statements, each byte as a two-hex-digit escape, chunked so that no
//! emitted line exceeds a fixed maximum length. This module holds the
//! encoder, a decoder standing for the remote shell's interpretation of the
//! escapes, and the proof that the two are inverses.

use crate::numeric::dec_digit_char;
use crate::strutil::str_views;
use vstd::prelude::*;
use vstd::string::*;

verus! {

/// No emitted statement line may be longer than this: a policy knob kept
/// under typical remote shell line-length limits.
pub const MAX_LINE_LEN: usize = 2048;

/// How many bytes fit on one line: the line holds `printf '` and a closing
/// quote (9 characters) and four characters per byte.
pub const BYTES_PER_LINE: usize = (MAX_LINE_LEN - 9) / 4;

/// The hexadecimal digit character for `n < 16`, lower case.
pub open spec fn hex_digit_char(n: nat) -> char {
    if n < 10 {
        dec_digit_char(n)
    } else if n == 10 {
        'a'
    } else if n == 11 {
        'b'
    } else if n == 12 {
        'c'
    } else if n == 13 {
        'd'
    } else if n == 14 {
        'e'
    } else {
        'f'
    }
}

/// `c` is a lower-case hexadecimal digit.
pub open spec fn is_hex_digit(c: char) -> bool {
    ('0' <= c && c <= '9') || ('a' <= c && c <= 'f')
}

/// The number a lower-case hexadecimal digit stands for.
pub open spec fn hex_value(c: char) -> nat {
    if '0' <= c && c <= '9' {
        (c as int - '0' as int) as nat
    } else {
        (c as int - 'a' as int + 10) as nat
    }
}

/// The four-character escape sequence for one byte.
pub open spec fn escape_byte(b: u8) -> Seq<char> {
    seq!['\\', 'x', hex_digit_char(b as nat / 16), hex_digit_char(b as nat % 16)]
}

/// The escape sequences of all of `bs`, concatenated.
pub open spec fn escape_bytes(bs: Seq<u8>) -> Seq<char>
    decreases bs.len(),
{
    if bs.len() == 0 {
        Seq::empty()
    } else {
        escape_bytes(bs.drop_last()) + escape_byte(bs.last())
    }
}

/// The eight characters every statement line opens with.
pub open spec fn printf_prefix() -> Seq<char> {
    seq!['p', 'r', 'i', 'n', 't', 'f', ' ', '\'']
}

/// One full statement line carrying `chunk`.
pub open spec fn printf_line(chunk: Seq<u8>) -> Seq<char> {
    printf_prefix() + escape_bytes(chunk) + seq!['\'']
}

/// The statement lines for `bs`, chunked at [`BYTES_PER_LINE`]. An empty
/// input produces no lines.
pub open spec fn chunked_lines(bs: Seq<u8>) -> Seq<Seq<char>>
    decreases bs.len(),
{
    if bs.len() == 0 {
        Seq::empty()
    } else if bs.len() <= BYTES_PER_LINE {
        seq![printf_line(bs)]
    } else {
        seq![printf_line(bs.take(BYTES_PER_LINE as int))] + chunked_lines(
            bs.skip(BYTES_PER_LINE as int),
        )
    }
}

/// How a shell-compatible interpreter reads a run of `\xHH` escapes: the
/// bytes they stand for, or nothing if the text is not such a run.
pub open spec fn unescape(s: Seq<char>) -> Option<Seq<u8>>
    decreases s.len(),
{
    if s.len() == 0 {
        Some(Seq::empty())
    } else if s.len() >= 4 && s[0] == '\\' && s[1] == 'x' && is_hex_digit(s[2]) && is_hex_digit(
        s[3],
    ) {
        match unescape(s.skip(4)) {
            Some(rest) => Some(
                seq![(hex_value(s[2]) * 16 + hex_value(s[3])) as u8] + rest,
            ),
            None => None,
        }
    } else {
        None
    }
}

/// The bytes one statement line writes, or nothing if the line is not a
/// well-formed statement.
pub open spec fn decode_line(line: Seq<char>) -> Option<Seq<u8>> {
    if line.len() >= 9 && line.take(8) == printf_prefix() && line.last() == '\'' {
        unescape(line.subrange(8, line.len() - 1))
    } else {
        None
    }
}

/// The bytes a sequence of statement lines writes, in order.
pub open spec fn decode_lines(lines: Seq<Seq<char>>) -> Option<Seq<u8>>
    decreases lines.len(),
{
    if lines.len() == 0 {
        Some(Seq::<u8>::empty())
    } else {
        match (decode_line(lines[0]), decode_lines(lines.drop_first())) {
            (Some(h), Some(t)) => Some(h + t),
            _ => None,
        }
    }
}

/// The hexadecimal digit character for an exec nibble, as a one-character
/// string slice.
fn hex_digit_str(d: usize) -> (r: &'static str)
    requires
        d < 16,
    ensures
        r@ =~= seq![hex_digit_char(d as nat)],
{
    proof {
        reveal_strlit("0");
        reveal_strlit("1");
        reveal_strlit("2");
        reveal_strlit("3");
        reveal_strlit("4");
        reveal_strlit("5");
        reveal_strlit("6");
        reveal_strlit("7");
        reveal_strlit("8");
        reveal_strlit("9");
        reveal_strlit("a");
        reveal_strlit("b");
        reveal_strlit("c");
        reveal_strlit("d");
        reveal_strlit("e");
        reveal_strlit("f");
    }
    if d == 0 {
        "0"
    } else if d == 1 {
        "1"
    } else if d == 2 {
        "2"
    } else if d == 3 {
        "3"
    } else if d == 4 {
        "4"
    } else if d == 5 {
        "5"
    } else if d == 6 {
        "6"
    } else if d == 7 {
        "7"
    } else if d == 8 {
        "8"
    } else if d == 9 {
        "9"
    } else if d == 10 {
        "a"
    } else if d == 11 {
        "b"
    } else if d == 12 {
        "c"
    } else if d == 13 {
        "d"
    } else if d == 14 {
        "e"
    } else {
        "f"
    }
}

/// Escaping distributes over `push`.
proof fn lemma_escape_bytes_push(bs: Seq<u8>, b: u8)
    ensures
        escape_bytes(bs.push(b)) == escape_bytes(bs) + escape_byte(b),
{
    assert(bs.push(b).drop_last() =~= bs);
    assert(bs.push(b).last() == b);
}

/// Encodes `bytes` as the statement lines of the shell transfer path.
pub fn encode_printf_lines(bytes: &Vec<u8>) -> (lines: Vec<String>)
    ensures
        str_views(lines@) == chunked_lines(bytes@),
{
    let n = bytes.len();
    let mut lines: Vec<String> = Vec::new();
    let mut i: usize = 0;
    proof {
        assert(bytes@.skip(0) =~= bytes@);
        assert(str_views(lines@) =~= Seq::<Seq<char>>::empty());
        assert(str_views(lines@) + chunked_lines(bytes@) =~= chunked_lines(bytes@));
    }
    while i < n
        invariant
            0 <= i <= n,
            n == bytes@.len(),
            chunked_lines(bytes@) == str_views(lines@) + chunked_lines(bytes@.skip(i as int)),
        decreases n - i,
    {
        let end = if n - i > BYTES_PER_LINE {
            i + BYTES_PER_LINE
        } else {
            n
        };
        let mut line = String::from_str("printf '");
        proof {
            reveal_strlit("printf '");
            assert(line@ =~= printf_prefix());
            assert(bytes@.subrange(i as int, i as int) =~= Seq::<u8>::empty());
        }
        let mut j = i;
        while j < end
            invariant
                0 <= i <= j <= end <= n,
                n == bytes@.len(),
                line@ == printf_prefix() + escape_bytes(bytes@.subrange(i as int, j as int)),
            decreases end - j,
        {
            let b = bytes[j];
            line.append("\\x");
            line.append(hex_digit_str((b / 16) as usize));
            line.append(hex_digit_str((b % 16) as usize));
            proof {
                reveal_strlit("\\x");
                let chunk = bytes@.subrange(i as int, j as int);
                lemma_escape_bytes_push(chunk, b);
                assert(bytes@.subrange(i as int, j as int + 1) =~= chunk.push(b));
                assert(line@ =~= printf_prefix() + escape_bytes(
                    bytes@.subrange(i as int, j as int + 1),
                ));
            }
            j = j + 1;
        }
        line.append("'");
        proof {
            reveal_strlit("'");
            let chunk = bytes@.subrange(i as int, end as int);
            assert(line@ =~= printf_line(chunk));
        }
        lines.push(line);
        proof {
            crate::strutil::lemma_str_views_push(
                lines@.drop_last(),
                lines@.last(),
            );
            assert(lines@.drop_last().push(lines@.last()) =~= lines@);
            let rest = bytes@.skip(i as int);
            let chunk = bytes@.subrange(i as int, end as int);
            if n - i > BYTES_PER_LINE {
                assert(rest.take(BYTES_PER_LINE as int) =~= chunk);
                assert(rest.skip(BYTES_PER_LINE as int) =~= bytes@.skip(end as int));
                assert(chunked_lines(rest) == seq![printf_line(chunk)] + chunked_lines(
                    bytes@.skip(end as int),
                ));
            } else {
                assert(rest =~= chunk);
                assert(rest.len() <= BYTES_PER_LINE);
                assert(bytes@.skip(end as int) =~= Seq::<u8>::empty());
                assert(chunked_lines(rest) =~= seq![printf_line(chunk)] + chunked_lines(
                    bytes@.skip(end as int),
                ));
            }
            assert(str_views(lines@) + chunked_lines(bytes@.skip(end as int)) =~= str_views(
                lines@.drop_last(),
            ) + (seq![printf_line(chunk)] + chunked_lines(bytes@.skip(end as int))));
        }
        i = end;
    }
    proof {
        assert(bytes@.skip(n as int) =~= Seq::<u8>::empty());
        assert(str_views(lines@) + Seq::<Seq<char>>::empty() =~= str_views(lines@));
    }
    lines
}

/// The value of one lower-case hexadecimal digit character.
fn hex_char_value(c: char) -> (r: Option<u8>)
    ensures
        match r {
            Some(v) => is_hex_digit(c) && hex_value(c) == v as nat && v < 16,
            None => !is_hex_digit(c),
        },
{
    if '0' <= c && c <= '9' {
        Some((c as u32 - '0' as u32) as u8)
    } else if 'a' <= c && c <= 'f' {
        Some((c as u32 - 'a' as u32 + 10) as u8)
    } else {
        None
    }
}

/// Reads one statement line back to the bytes it writes, exactly as the
/// escape interpreter would.
fn decode_one_line(s: &str) -> (r: Option<Vec<u8>>)
    ensures
        match r {
            Some(v) => decode_line(s@) == Some(v@),
            None => decode_line(s@) is None,
        },
{
    let m = s.unicode_len();
    if m < 9 {
        return None;
    }
    if s.get_char(0) != 'p' || s.get_char(1) != 'r' || s.get_char(2) != 'i' || s.get_char(3)
        != 'n' || s.get_char(4) != 't' || s.get_char(5) != 'f' || s.get_char(6) != ' '
        || s.get_char(7) != '\'' {
        proof {
            assert(s@.take(8) != printf_prefix());
        }
        return None;
    }
    proof {
        assert(s@.take(8) =~= printf_prefix());
    }
    if s.get_char(m - 1) != '\'' {
        return None;
    }
    let ghost mid = s@.subrange(8, m as int - 1);
    let mut p: usize = 8;
    let mut out: Vec<u8> = Vec::new();
    proof {
        assert(mid.skip(p - 8) =~= mid);
    }
    while p < m - 1
        invariant
            8 <= p <= m as int - 1,
            m == s@.len(),
            m >= 9,
            mid == s@.subrange(8, m as int - 1),
            ({
                let tail = unescape(mid.skip(p - 8));
                unescape(mid) == (match tail {
                    Some(t) => Some(out@ + t),
                    None => None::<Seq<u8>>,
                })
            }),
        decreases m - p,
    {
        let ghost rest = mid.skip(p - 8);
        proof {
            assert forall|j: int| 0 <= j < rest.len() implies rest[j] == s@[p + j] by {
                assert(rest[j] == mid[p - 8 + j]);
            }
        }
        if m - 1 - p < 4 {
            proof {
                assert(rest.len() < 4 && rest.len() > 0);
                assert(unescape(rest) is None);
            }
            return None;
        }
        let c0 = s.get_char(p);
        let c1 = s.get_char(p + 1);
        let c2 = s.get_char(p + 2);
        let c3 = s.get_char(p + 3);
        proof {
            assert(rest[0] == c0 && rest[1] == c1 && rest[2] == c2 && rest[3] == c3);
        }
        if c0 != '\\' || c1 != 'x' {
            proof {
                assert(unescape(rest) is None);
            }
            return None;
        }
        let v2 = match hex_char_value(c2) {
            Some(v) => v,
            None => {
                proof {
                    assert(unescape(rest) is None);
                }
                return None;
            },
        };
        let v3 = match hex_char_value(c3) {
            Some(v) => v,
            None => {
                proof {
                    assert(unescape(rest) is None);
                }
                return None;
            },
        };
        let b: u8 = v2 * 16 + v3;
        out.push(b);
        proof {
            assert(rest.skip(4) =~= mid.skip(p + 4 - 8));
            assert(unescape(rest) == (match unescape(rest.skip(4)) {
                Some(t) => Some(seq![b] + t),
                None => None::<Seq<u8>>,
            }));
        }
        p = p + 4;
    }
    proof {
        assert(mid.skip(m as int - 1 - 8) =~= Seq::<char>::empty());
        assert(unescape(mid) == Some(out@ + Seq::<u8>::empty()));
        assert(out@ + Seq::<u8>::empty() =~= out@);
        assert(s@.last() == '\'');
        assert(decode_line(s@) == Some(out@));
    }
    Some(out)
}

/// Reads a sequence of statement lines back to the bytes they write, in
/// order: a shell-compatible interpreter of the emitted escapes.
pub fn decode_printf_lines(lines: &Vec<String>) -> (r: Option<Vec<u8>>)
    ensures
        match r {
            Some(v) => decode_lines(str_views(lines@)) == Some(v@),
            None => decode_lines(str_views(lines@)) is None,
        },
{
    let n = lines.len();
    let mut out: Vec<u8> = Vec::new();
    let mut i: usize = 0;
    let ghost all = str_views(lines@);
    proof {
        assert(all.skip(0) =~= all);
    }
    while i < n
        invariant
            0 <= i <= n,
            n == lines@.len(),
            all == str_views(lines@),
            ({
                let tail = decode_lines(all.skip(i as int));
                decode_lines(all) == (match tail {
                    Some(t) => Some(out@ + t),
                    None => None::<Seq<u8>>,
                })
            }),
        decreases n - i,
    {
        let ghost rest = all.skip(i as int);
        proof {
            assert(rest.len() == n - i);
            assert(rest[0] == all[i as int]);
            assert(all[i as int] == lines@[i as int]@);
            assert(rest.drop_first() =~= all.skip(i as int + 1));
        }
        match decode_one_line(lines[i].as_str()) {
            Some(mut piece) => {
                let ghost piece_view = piece@;
                let ghost out_before = out@;
                out.append(&mut piece);
                proof {
                    assert(decode_line(rest[0]) == Some(piece_view));
                    match decode_lines(all.skip(i as int + 1)) {
                        Some(t2) => {
                            assert(decode_lines(rest) == Some(piece_view + t2));
                            assert(out_before + (piece_view + t2) =~= out@ + t2);
                        },
                        None => {
                            assert(decode_lines(rest) is None);
                        },
                    }
                }
            },
            None => {
                proof {
                    assert(decode_lines(rest) is None);
                }
                return None;
            },
        }
        i = i + 1;
    }
    proof {
        assert(all.skip(n as int) =~= Seq::<Seq<char>>::empty());
        assert(out@ + Seq::<u8>::empty() =~= out@);
    }
    Some(out)
}

/// Hexadecimal digit characters decode back to their value.
pub proof fn lemma_hex_digit_char(n: nat)
    requires
        n < 16,
    ensures
        is_hex_digit(hex_digit_char(n)),
        hex_value(hex_digit_char(n)) == n,
{
}

/// Escaping is four characters per byte.
pub proof fn lemma_escape_bytes_len(bs: Seq<u8>)
    ensures
        escape_bytes(bs).len() == 4 * bs.len(),
    decreases bs.len(),
{
    if bs.len() > 0 {
        lemma_escape_bytes_len(bs.drop_last());
    }
}

/// Escaping distributes over dropping the first byte, which aligns the
/// back-to-front definition of `escape_bytes` with the front-to-back
/// definition of `unescape`.
pub proof fn lemma_escape_bytes_first(bs: Seq<u8>)
    requires
        bs.len() > 0,
    ensures
        escape_bytes(bs) == escape_byte(bs[0]) + escape_bytes(bs.drop_first()),
    decreases bs.len(),
{
    if bs.len() == 1 {
        assert(bs.drop_last() =~= Seq::<u8>::empty());
        assert(bs.drop_first() =~= Seq::<u8>::empty());
        assert(bs.last() == bs[0]);
        assert(escape_bytes(bs) =~= escape_byte(bs[0]) + escape_bytes(bs.drop_first()));
    } else {
        lemma_escape_bytes_first(bs.drop_last());
        assert(bs.drop_last().drop_first() =~= bs.drop_first().drop_last());
        assert(bs.drop_last()[0] == bs[0]);
        assert(bs.drop_first().last() == bs.last());
        assert(escape_bytes(bs) == escape_bytes(bs.drop_last()) + escape_byte(bs.last()));
        assert(escape_bytes(bs.drop_first()) == escape_bytes(bs.drop_first().drop_last())
            + escape_byte(bs.drop_first().last()));
        assert(escape_bytes(bs) =~= escape_byte(bs[0]) + escape_bytes(bs.drop_first()));
    }
}

/// A run of escapes reads back as exactly the bytes that produced it.
pub proof fn lemma_unescape_escape(bs: Seq<u8>)
    ensures
        unescape(escape_bytes(bs)) == Some(bs),
    decreases bs.len(),
{
    if bs.len() == 0 {
        assert(escape_bytes(bs).len() == 0);
        assert(bs =~= Seq::<u8>::empty());
    } else {
        let b = bs[0];
        lemma_escape_bytes_first(bs);
        lemma_escape_bytes_len(bs);
        let s = escape_bytes(bs);
        assert(s == escape_byte(b) + escape_bytes(bs.drop_first()));
        assert(s.len() >= 4);
        assert(s[0] == '\\' && s[1] == 'x');
        assert(s[2] == hex_digit_char(b as nat / 16));
        assert(s[3] == hex_digit_char(b as nat % 16));
        lemma_hex_digit_char(b as nat / 16);
        lemma_hex_digit_char(b as nat % 16);
        assert(hex_value(s[2]) * 16 + hex_value(s[3]) == (b as nat / 16) * 16 + b as nat % 16);
        assert((b as nat / 16) * 16 + b as nat % 16 == b as nat) by (nonlinear_arith);
        lemma_unescape_escape(bs.drop_first());
        assert(s.skip(4) =~= escape_bytes(bs.drop_first()));
        assert(unescape(s) == Some(seq![b] + bs.drop_first()));
        assert(seq![b] + bs.drop_first() =~= bs);
    }
}

/// One statement line decodes back to its chunk.
pub proof fn lemma_decode_printf_line(chunk: Seq<u8>)
    ensures
        decode_line(printf_line(chunk)) == Some(chunk),
{
    let line = printf_line(chunk);
    lemma_escape_bytes_len(chunk);
    assert(line.len() == 9 + 4 * chunk.len());
    assert(line.take(8) =~= printf_prefix());
    assert(line.last() == '\'');
    assert(line.subrange(8, line.len() - 1) =~= escape_bytes(chunk));
    lemma_unescape_escape(chunk);
}

/// Encoding any byte sequence and decoding the lines through the escape
/// interpreter reproduces the bytes exactly.
pub proof fn lemma_codec_roundtrip(bs: Seq<u8>)
    ensures
        decode_lines(chunked_lines(bs)) == Some(bs),
    decreases bs.len(),
{
    if bs.len() == 0 {
    } else if bs.len() <= BYTES_PER_LINE {
        lemma_decode_printf_line(bs);
        let lines = chunked_lines(bs);
        assert(lines[0] == printf_line(bs));
        assert(lines.drop_first() =~= Seq::<Seq<char>>::empty());
        assert(decode_line(lines[0]) == Some(bs));
        assert(decode_lines(lines.drop_first()) == Some(Seq::<u8>::empty()));
        assert(lines.len() == 1);
        assert(decode_lines(lines) == Some(bs + Seq::<u8>::empty()));
        assert(decode_lines(lines) == Some(bs + Seq::<u8>::empty()));
        assert(bs + Seq::<u8>::empty() =~= bs);
    } else {
        let k = BYTES_PER_LINE as int;
        let head = bs.take(k);
        let tail = bs.skip(k);
        lemma_decode_printf_line(head);
        lemma_codec_roundtrip(tail);
        let lines = chunked_lines(bs);
        assert(lines[0] == printf_line(head));
        assert(lines.drop_first() =~= chunked_lines(tail));
        assert(decode_lines(lines) == Some(head + tail));
        assert(head + tail =~= bs);
    }
}

/// No emitted line is longer than the limit.
pub proof fn lemma_line_length(bs: Seq<u8>)
    ensures
        forall|i: int| 0 <= i < chunked_lines(bs).len() ==> (#[trigger] chunked_lines(
            bs,
        )[i]).len() <= MAX_LINE_LEN,
    decreases bs.len(),
{
    if bs.len() == 0 {
    } else if bs.len() <= BYTES_PER_LINE {
        lemma_escape_bytes_len(bs);
    } else {
        let k = BYTES_PER_LINE as int;
        lemma_escape_bytes_len(bs.take(k));
        lemma_line_length(bs.skip(k));
        assert forall|i: int| 0 <= i < chunked_lines(bs).len() implies (#[trigger] chunked_lines(
            bs,
        )[i]).len() <= MAX_LINE_LEN by {
            if i > 0 {
                assert(chunked_lines(bs)[i] == chunked_lines(bs.skip(k))[i - 1]);
            }
        }
    }
}

} // verus!
