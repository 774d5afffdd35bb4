use vstd::prelude::*;

use vstd::utf8::{encode_scalar, encode_utf8};

use crate::packet::byte_len;
use crate::text::{same_text, trim_text, trimmed};

verus! {

/// Bytes in a mebibyte.
pub const MIB: u64 = 1048576;

/// Whole mebibytes in a size given in bytes, rounded down.
pub fn size_in_mib(bytes: u64) -> (r: u64)
    ensures
        r == bytes / MIB,
{
    bytes / MIB
}

/// One installed model as the model list shows it.
pub struct ModelLine {
    pub name: String,
    pub size_mib: u64,
    pub is_default: bool,
}

/// The list line of a model record: a missing name reads `unknown`, a missing
/// size reads as zero, and the configured default model is marked.
pub fn model_line(name: Option<&str>, size: Option<u64>, default_model: &str) -> (r: ModelLine)
    ensures
        r.name@ == match name {
            Some(n) => n@,
            None => "unknown"@,
        },
        r.size_mib == match size {
            Some(b) => b / MIB,
            None => 0,
        },
        r.is_default == (r.name@ == default_model@),
{
    let shown = match name {
        Some(n) => n,
        None => "unknown",
    };
    let bytes = match size {
        Some(b) => b,
        None => 0,
    };
    ModelLine { name: String::from_str(shown), size_mib: size_in_mib(bytes), is_default: same_text(shown, default_model) }
}

/// Bytes of a long text kept at most in its one-line preview.
pub const PREVIEW_BYTES: usize = 50;

/// The size in bytes of one character in UTF-8.
pub open spec fn char_width(c: char) -> nat {
    encode_scalar(c as u32).len()
}

/// The size in bytes of one character in UTF-8.
fn width_of(c: char) -> (w: usize)
    ensures
        w == char_width(c),
{
    let u = c as u32;
    if u <= 0x7F {
        1
    } else if u <= 0x7FF {
        2
    } else if u <= 0xFFFF && !(0xD800 <= u && u <= 0xDFFF) {
        3
    } else {
        4
    }
}

proof fn lemma_encode_concat(a: Seq<char>, b: Seq<char>)
    ensures
        encode_utf8(a + b) == encode_utf8(a) + encode_utf8(b),
    decreases a.len(),
{
    if a.len() == 0 {
        assert(a + b =~= b);
    } else {
        lemma_encode_concat(a.drop_first(), b);
        assert((a + b).drop_first() =~= a.drop_first() + b);
        assert((a + b)[0] == a[0]);
    }
}

/// One more character adds its width to the size of a prefix.
proof fn lemma_prefix_grows(s: Seq<char>, k: int)
    requires
        0 <= k < s.len(),
    ensures
        byte_len(s.take(k + 1)) == byte_len(s.take(k)) + char_width(s[k]),
{
    assert(s.take(k + 1) =~= s.take(k) + seq![s[k]]);
    lemma_encode_concat(s.take(k), seq![s[k]]);
    let one = seq![s[k]];
    assert(one.drop_first() =~= Seq::<char>::empty());
    assert(encode_utf8(one.drop_first()) =~= Seq::<u8>::empty());
    assert(encode_utf8(one) =~= encode_scalar(s[k] as u32));
}

/// How many leading characters fit in `budget` bytes.
pub open spec fn longest_fit(s: Seq<char>, budget: nat) -> nat
    decreases s.len(),
{
    if s.len() == 0 || char_width(s[0]) > budget {
        0
    } else {
        1 + longest_fit(s.drop_first(), (budget - char_width(s[0])) as nat)
    }
}

/// A one-line preview: a text longer than the preview size in bytes keeps its
/// longest leading run of whole characters that fits, marked with an
/// ellipsis.
pub open spec fn preview_of(s: Seq<char>) -> Seq<char> {
    if byte_len(s) > PREVIEW_BYTES {
        s.take(longest_fit(s, PREVIEW_BYTES as nat) as int) + "..."@
    } else {
        s
    }
}

/// The preview of a text.
pub fn preview(s: &str) -> (r: String)
    ensures
        r@ == preview_of(s@),
        byte_len(s@) > PREVIEW_BYTES ==> {
            let k = longest_fit(s@, PREVIEW_BYTES as nat) as int;
            &&& k <= s@.len()
            &&& byte_len(s@.take(k)) <= PREVIEW_BYTES
            &&& k < s@.len() ==> byte_len(s@.take(k + 1)) > PREVIEW_BYTES
        },
{
    let total = s.as_bytes().len();
    if total <= PREVIEW_BYTES {
        return String::from_str(s);
    }
    let n = s.unicode_len();
    let mut k: usize = 0;
    let mut used: usize = 0;
    let mut full = false;
    proof {
        assert(s@.take(0) =~= Seq::<char>::empty());
        assert(s@.skip(0) =~= s@);
    }
    while k < n && !full
        invariant
            n == s@.len(),
            k <= n,
            used == byte_len(s@.take(k as int)),
            used <= PREVIEW_BYTES,
            longest_fit(s@, PREVIEW_BYTES as nat) == k + longest_fit(s@.skip(k as int), (PREVIEW_BYTES - used) as nat),
            full ==> k < n && longest_fit(s@.skip(k as int), (PREVIEW_BYTES - used) as nat) == 0,
            full ==> byte_len(s@.take(k + 1)) > PREVIEW_BYTES,
        decreases n - k + if full {
            0nat
        } else {
            1nat
        },
    {
        let w = width_of(s.get_char(k));
        proof {
            lemma_prefix_grows(s@, k as int);
            assert(s@.skip(k as int)[0] == s@[k as int]);
            assert(s@.skip(k as int).drop_first() =~= s@.skip(k + 1));
        }
        if w > PREVIEW_BYTES - used {
            full = true;
        } else {
            used = used + w;
            k = k + 1;
        }
    }
    proof {
        if !full {
            assert(s@.skip(k as int).len() == 0);
        }
    }
    let head = s.substring_char(0, k);
    let mut r = String::from_str(head);
    proof {
        reveal_strlit("...");
        assert(head@ =~= s@.take(k as int));
    }
    r.append("...");
    r
}

/// Gathers a prompt typed over several lines, up to a line that reads `END`.
pub struct InputCollector {
    pub text: String,
}

/// Whether a typed line ends the prompt.
pub open spec fn end_marker(line: Seq<char>) -> bool {
    trimmed(line) == "END"@
}

/// Whether a typed line, once trimmed, is the end marker.
pub fn is_end_text(trimmed_line: &str) -> (r: bool)
    ensures
        r == (trimmed_line@ == "END"@),
{
    same_text(trimmed_line, "END")
}

impl InputCollector {
    /// Nothing typed yet.
    pub fn new() -> (r: InputCollector)
        ensures
            r.text@.len() == 0,
    {
        InputCollector { text: String::new() }
    }

    /// Takes one typed line, with its line end. Returns whether to read on:
    /// the end marker stops the input and is not kept; any other line is kept.
    pub fn push_line(&mut self, line: &str) -> (more: bool)
        ensures
            more == !end_marker(line@),
            more ==> final(self).text@ == old(self).text@ + line@,
            !more ==> final(self).text@ == old(self).text@,
    {
        if is_end_text(trim_text(line)) {
            false
        } else {
            self.text.append(line);
            true
        }
    }

    /// The prompt: all kept lines, without leading and trailing white space.
    pub fn finish(&self) -> (r: String)
        ensures
            r@ == trimmed(self.text@),
    {
        String::from_str(trim_text(self.text.as_str()))
    }
}

} // verus!
