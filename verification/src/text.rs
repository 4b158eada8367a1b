//! The text of trace lines: splitting a line into whitespace-separated words,
//! and reading and writing hexadecimal numbers.

use vstd::prelude::*;

verus! {

/// Blanks between the words of a line: space, tab and carriage return.
pub open spec fn is_blank(b: u8) -> bool {
    b == 0x20 || b == 0x09 || b == 0x0d
}

/// The length of the word that starts `s`: its leading run of non-blank bytes.
pub open spec fn word_len(s: Seq<u8>) -> nat
    decreases s.len(),
{
    if s.len() == 0 || is_blank(s[0]) {
        0
    } else {
        1 + word_len(s.drop_first())
    }
}

pub proof fn lemma_word_len_bound(s: Seq<u8>)
    ensures
        word_len(s) <= s.len(),
        s.len() > 0 && !is_blank(s[0]) ==> word_len(s) >= 1,
    decreases s.len(),
{
    if s.len() > 0 && !is_blank(s[0]) {
        lemma_word_len_bound(s.drop_first());
    }
}

/// The words of a line, in order: the maximal runs of non-blank bytes.
pub open spec fn words(s: Seq<u8>) -> Seq<Seq<u8>>
    decreases s.len(),
{
    if s.len() == 0 {
        seq![]
    } else if is_blank(s[0]) {
        words(s.drop_first())
    } else {
        let n = word_len(s);
        proof {
            lemma_word_len_bound(s);
        }
        seq![s.take(n as int)] + words(s.skip(n as int))
    }
}

pub proof fn lemma_word_len_exact(s: Seq<u8>, k: int)
    requires
        0 <= k <= s.len(),
        forall|j: int| 0 <= j < k ==> !is_blank(#[trigger] s[j]),
        k == s.len() || is_blank(s[k]),
    ensures
        word_len(s) == k,
    decreases k,
{
    if k > 0 {
        let t = s.drop_first();
        assert forall|j: int| 0 <= j < k - 1 implies !is_blank(#[trigger] t[j]) by {
            assert(t[j] == s[j + 1]);
        }
        if k < s.len() {
            assert(t[k - 1] == s[k]);
        }
        lemma_word_len_exact(t, k - 1);
    }
}

/// Splits a line into its words.
pub fn split_words(s: &[u8]) -> (r: Vec<Vec<u8>>)
    ensures
        r@.map_values(|w: Vec<u8>| w@) == words(s@),
{
    let mut r: Vec<Vec<u8>> = Vec::new();
    let mut i: usize = 0;
    assert(s@.skip(0) =~= s@);
    while i < s.len()
        invariant
            i <= s.len(),
            words(s@) == r@.map_values(|w: Vec<u8>| w@) + words(s@.skip(i as int)),
        decreases s.len() - i,
    {
        let ghost rest = s@.skip(i as int);
        if s[i] == 0x20 || s[i] == 0x09 || s[i] == 0x0d {
            assert(rest.drop_first() =~= s@.skip(i + 1));
            i = i + 1;
        } else {
            let start = i;
            let mut w: Vec<u8> = Vec::new();
            while i < s.len() && !(s[i] == 0x20 || s[i] == 0x09 || s[i] == 0x0d)
                invariant
                    start <= i <= s.len(),
                    w@ == s@.subrange(start as int, i as int),
                    forall|j: int| start <= j < i ==> !is_blank(#[trigger] s@[j]),
                decreases s.len() - i,
            {
                w.push(s[i]);
                i = i + 1;
                assert(w@ =~= s@.subrange(start as int, i as int));
            }
            let ghost k = (i - start) as int;
            assert forall|j: int| 0 <= j < k implies !is_blank(#[trigger] rest[j]) by {
                assert(rest[j] == s@[start + j]);
            }
            if i < s.len() {
                assert(rest[k] == s@[i as int]);
            }
            proof {
                lemma_word_len_exact(rest, k);
            }
            assert(rest.take(k) =~= w@);
            assert(rest.skip(k) =~= s@.skip(i as int));
            let ghost before = r@.map_values(|w: Vec<u8>| w@);
            r.push(w);
            assert(r@.map_values(|w: Vec<u8>| w@) =~= before.push(w@));
            assert(before.push(w@) + words(s@.skip(i as int)) =~= before + (seq![w@] + words(
                s@.skip(i as int),
            )));
        }
    }
    assert(s@.skip(i as int) =~= seq![]);
    assert(r@.map_values(|w: Vec<u8>| w@) + seq![] =~= r@.map_values(|w: Vec<u8>| w@));
    r
}


/// The value of a hexadecimal digit (either case).
pub open spec fn hex_digit_value(b: u8) -> Option<int> {
    if 0x30 <= b <= 0x39 {
        Some(b - 0x30)
    } else if 0x61 <= b <= 0x66 {
        Some(b - 0x61 + 10)
    } else if 0x41 <= b <= 0x46 {
        Some(b - 0x41 + 10)
    } else {
        None
    }
}

/// The value of a string of hexadecimal digits (zero for the empty string),
/// or `None` where a byte is not a digit.
pub open spec fn hex_value(s: Seq<u8>) -> Option<int>
    decreases s.len(),
{
    if s.len() == 0 {
        Some(0)
    } else {
        match (hex_value(s.drop_last()), hex_digit_value(s.last())) {
            (Some(v), Some(d)) => Some(v * 16 + d),
            _ => None,
        }
    }
}

/// A hexadecimal number of at least one digit whose value is at most `max`.
pub open spec fn hex_number(s: Seq<u8>, max: int) -> Option<int> {
    if s.len() > 0 && hex_value(s) is Some && hex_value(s)->0 <= max {
        hex_value(s)
    } else {
        None
    }
}

pub proof fn lemma_hex_value_prefix(s: Seq<u8>, k: int)
    requires
        0 <= k <= s.len(),
        hex_value(s) is Some,
    ensures
        hex_value(s.take(k)) is Some,
        0 <= hex_value(s.take(k))->0 <= hex_value(s)->0,
    decreases s.len(),
{
    if s.len() > 0 {
        if k == s.len() {
            assert(s.take(k) =~= s);
            lemma_hex_value_prefix(s.drop_last(), 0);
        } else {
            assert(s.drop_last().take(k) =~= s.take(k));
            lemma_hex_value_prefix(s.drop_last(), k);
        }
    } else {
        assert(s.take(k) =~= s);
    }
}

fn digit_value(b: u8) -> (r: Option<u8>)
    ensures
        match r {
            Some(d) => hex_digit_value(b) == Some(d as int),
            None => hex_digit_value(b) is None,
        },
{
    if 0x30 <= b && b <= 0x39 {
        Some(b - 0x30)
    } else if 0x61 <= b && b <= 0x66 {
        Some(b - 0x61 + 10)
    } else if 0x41 <= b && b <= 0x46 {
        Some(b - 0x41 + 10)
    } else {
        None
    }
}

/// Reads a hexadecimal number of at least one digit, no greater than `max`.
pub fn parse_hex(s: &[u8], max: u32) -> (r: Option<u32>)
    ensures
        match r {
            Some(v) => hex_number(s@, max as int) == Some(v as int),
            None => hex_number(s@, max as int) is None,
        },
{
    if s.len() == 0 {
        return None;
    }
    let mut acc: u64 = 0;
    let mut i: usize = 0;
    assert(s@.take(0) =~= seq![]);
    while i < s.len()
        invariant
            i <= s.len(),
            hex_value(s@.take(i as int)) == Some(acc as int),
            acc <= max,
        decreases s.len() - i,
    {
        assert(s@.take(i + 1).drop_last() =~= s@.take(i as int));
        match digit_value(s[i]) {
            Some(d) => {
                let next = acc * 16 + d as u64;
                if next > max as u64 {
                    proof {
                        if hex_value(s@) is Some {
                            lemma_hex_value_prefix(s@, i + 1);
                        }
                    }
                    return None;
                }
                acc = next;
            },
            None => {
                proof {
                    if hex_value(s@) is Some {
                        lemma_hex_value_prefix(s@, i + 1);
                    }
                }
                return None;
            },
        }
        i = i + 1;
    }
    assert(s@.take(i as int) =~= s@);
    Some(acc as u32)
}

/// The lower-case hexadecimal digit for `d`.
pub open spec fn hex_char(d: int) -> u8 {
    if d < 10 {
        (0x30 + d) as u8
    } else {
        (0x61 + d - 10) as u8
    }
}

/// `v` in lower-case hexadecimal, with leading zeros up to `width` digits.
pub open spec fn hex_text(v: nat, width: nat) -> Seq<u8>
    decreases v + width,
{
    if width <= 1 && v < 16 {
        seq![hex_char(v as int)]
    } else {
        hex_text(v / 16, if width > 0 {
            (width - 1) as nat
        } else {
            0
        }) + seq![hex_char((v % 16) as int)]
    }
}

pub proof fn lemma_hex_char(d: int)
    requires
        0 <= d < 16,
    ensures
        hex_digit_value(hex_char(d)) == Some(d),
        !is_blank(hex_char(d)),
{
}

/// Writing a number in hexadecimal and reading it back gives the number, and
/// the text holds no blank.
pub proof fn lemma_hex_text_reads_back(v: nat, width: nat)
    ensures
        hex_text(v, width).len() >= 1,
        hex_value(hex_text(v, width)) == Some(v as int),
        forall|j: int| 0 <= j < hex_text(v, width).len() ==> !is_blank(#[trigger] hex_text(v, width)[j]),
    decreases v + width,
{
    let t = hex_text(v, width);
    lemma_hex_char((v % 16) as int);
    if width <= 1 && v < 16 {
        assert(t.drop_last() =~= seq![]);
        assert(hex_value(t.drop_last()) == Some(0int));
        assert(t.last() == hex_char(v as int));
        assert(hex_digit_value(t.last()) == Some(v as int));
    } else {
        let w2: nat = if width > 0 {
            (width - 1) as nat
        } else {
            0
        };
        lemma_hex_text_reads_back(v / 16, w2);
        assert(t.drop_last() =~= hex_text(v / 16, w2));
        assert(t.last() == hex_char((v % 16) as int));
        assert(v == (v / 16) * 16 + v % 16);
        assert(hex_digit_value(t.last()) == Some((v % 16) as int));
        assert(hex_value(t.drop_last()) == Some((v / 16) as int));
        assert forall|j: int| 0 <= j < t.len() implies !is_blank(#[trigger] t[j]) by {
            if j < t.len() - 1 {
                assert(t[j] == hex_text(v / 16, w2)[j]);
            }
        }
    }
}

fn hex_char_exec(d: u32) -> (r: u8)
    requires
        d < 16,
    ensures
        r == hex_char(d as int),
{
    if d < 10 {
        (0x30 + d) as u8
    } else {
        (0x61 + d - 10) as u8
    }
}

/// Appends `v` in lower-case hexadecimal, zero-padded to `width` digits.
pub fn push_hex(out: &mut Vec<u8>, v: u32, width: usize)
    ensures
        final(out)@ == old(out)@ + hex_text(v as nat, width as nat),
    decreases v + width,
{
    if !(width <= 1 && v < 16) {
        let w2: usize = if width > 0 {
            width - 1
        } else {
            0
        };
        push_hex(out, v / 16, w2);
    }
    out.push(hex_char_exec(v % 16));
    assert(out@ =~= old(out)@ + hex_text(v as nat, width as nat));
}


/// A word followed by nothing or by a blank is the first word of the text.
pub proof fn lemma_words_word_then(a: Seq<u8>, r: Seq<u8>)
    requires
        a.len() > 0,
        forall|j: int| 0 <= j < a.len() ==> !is_blank(#[trigger] a[j]),
        r.len() == 0 || is_blank(r[0]),
    ensures
        words(a + r) == seq![a] + words(r),
{
    let s = a + r;
    assert forall|j: int| 0 <= j < a.len() implies !is_blank(#[trigger] s[j]) by {
        assert(s[j] == a[j]);
    }
    if r.len() > 0 {
        assert(s[a.len() as int] == r[0]);
    }
    lemma_word_len_exact(s, a.len() as int);
    assert(s[0] == a[0]);
    assert(s.take(a.len() as int) =~= a);
    assert(s.skip(a.len() as int) =~= r);
}

/// A leading blank does not change the words of a text.
pub proof fn lemma_words_blank_then(b: u8, r: Seq<u8>)
    requires
        is_blank(b),
    ensures
        words(seq![b] + r) == words(r),
{
    let s = seq![b] + r;
    assert(s[0] == b);
    assert(s.drop_first() =~= r);
}


/// The length of the first line of `s`: the bytes before its first newline.
pub open spec fn line_len(s: Seq<u8>) -> nat
    decreases s.len(),
{
    if s.len() == 0 || s[0] == 0x0a {
        0
    } else {
        1 + line_len(s.drop_first())
    }
}

pub proof fn lemma_line_len_bound(s: Seq<u8>)
    ensures
        line_len(s) <= s.len(),
    decreases s.len(),
{
    if s.len() > 0 && s[0] != 0x0a {
        lemma_line_len_bound(s.drop_first());
    }
}

/// The lines of a text: the pieces between newlines, without the newlines. A
/// newline at the very end does not start another line.
pub open spec fn text_lines(s: Seq<u8>) -> Seq<Seq<u8>>
    decreases s.len(),
{
    if s.len() == 0 {
        seq![]
    } else {
        let n = line_len(s);
        proof {
            lemma_line_len_bound(s);
        }
        if n < s.len() {
            seq![s.take(n as int)] + text_lines(s.skip((n + 1) as int))
        } else {
            seq![s]
        }
    }
}

pub proof fn lemma_line_len_exact(s: Seq<u8>, k: int)
    requires
        0 <= k <= s.len(),
        forall|j: int| 0 <= j < k ==> #[trigger] s[j] != 0x0a,
        k == s.len() || s[k] == 0x0a,
    ensures
        line_len(s) == k,
    decreases k,
{
    if k > 0 {
        let t = s.drop_first();
        assert forall|j: int| 0 <= j < k - 1 implies #[trigger] t[j] != 0x0a by {
            assert(t[j] == s[j + 1]);
        }
        if k < s.len() {
            assert(t[k - 1] == s[k]);
        }
        lemma_line_len_exact(t, k - 1);
    }
}

} // verus!
