//! Hashes that identify files and classes, and the loaders that rewrite a module.
use vstd::prelude::*;

use crate::text::{char_from_ascii, chars_of, push_char, push_str, string_of, to_owned, utf8_bytes};

pub mod helpers;
pub mod inject_accept_to_module;
pub mod inject_hash_to_class;
pub mod inject_inner_components_to_class;
pub mod inject_nullstack_to_modules;
pub mod inject_restart_to_module;
pub mod inject_runtime_to_module;
pub mod inject_source_to_events;
pub mod inject_transpiler_to_module;
pub mod register_server_functions_on_server;
pub mod remove_styles_on_server;
pub mod remove_unused_from_client;
pub mod replace_lazy_on_module;
pub mod replace_ref_on_attributes;
pub mod replace_server_functions_on_client;

verus! {

/// The checksum that `crc32fast::hash` computes over some bytes.
pub uninterp spec fn crc32_checksum(data: Seq<u8>) -> u32;

/// Calls `crc32fast::hash`, the CRC-32 (IEEE) checksum of a byte slice.
#[verifier::external_body]
fn crc32_hash(data: &[u8]) -> (r: u32)
    ensures
        r == crc32_checksum(data@),
{
    crc32fast::hash(data)
}

/// Path separators, on either platform.
pub open spec fn is_separator(c: char) -> bool {
    c == '/' || c == '\\'
}

/// Each path separator replaced by two underscores.
pub open spec fn replace_separators(s: Seq<char>) -> Seq<char>
    decreases s.len(),
{
    if s.len() == 0 {
        Seq::empty()
    } else {
        replace_separators(s.drop_last()) + if is_separator(s.last()) {
            seq!['_', '_']
        } else {
            seq![s.last()]
        }
    }
}

/// What comes before the first `.` (the whole string when there is none).
pub open spec fn before_dot(s: Seq<char>) -> Seq<char>
    decreases s.len(),
{
    if s.len() == 0 {
        Seq::empty()
    } else if s[0] == '.' {
        Seq::empty()
    } else {
        seq![s[0]] + before_dot(s.drop_first())
    }
}

/// The development hash: the path with its separators spelled `__`, cut at the first dot.
pub open spec fn dev_hash(s: Seq<char>) -> Seq<char> {
    before_dot(replace_separators(s))
}

/// The lower-case hexadecimal digit of a value below 16.
pub open spec fn hex_digit(d: int) -> char {
    if d < 10 {
        (48 + d) as char
    } else {
        (87 + d) as char
    }
}

/// A number in lower-case hexadecimal, without leading zeros (`format!("{:x}", n)`).
pub open spec fn lower_hex(n: nat) -> Seq<char>
    decreases n,
{
    if n < 16 {
        seq![hex_digit(n as int)]
    } else {
        lower_hex(n / 16).push(hex_digit((n % 16) as int))
    }
}

/// Bytes as pairs of lower-case hexadecimal digits (`{:02x}` for each byte).
pub open spec fn hex_bytes(b: Seq<u8>) -> Seq<char>
    decreases b.len(),
{
    if b.len() == 0 {
        Seq::empty()
    } else {
        hex_bytes(b.drop_last()) + seq![hex_digit((b.last() / 16) as int), hex_digit((b.last() % 16) as int)]
    }
}

/// The hash of a path or a name: readable in development, a CRC-32 checksum in production.
pub open spec fn spec_hash(text: Seq<char>, is_dev: bool) -> Seq<char> {
    if is_dev {
        dev_hash(text)
    } else {
        lower_hex(crc32_checksum(vstd::utf8::encode_utf8(text)) as nat)
    }
}

/// Two hashes joined: with `___` between them in development, side by side in production.
pub open spec fn spec_combine_hash(file_hash: Seq<char>, class_hash: Seq<char>, is_dev: bool) -> Seq<char> {
    if is_dev {
        file_hash + seq!['_', '_', '_'] + class_hash
    } else {
        file_hash + class_hash
    }
}

/// The digit for a value below 16.
pub fn hex_digit_char(d: u32) -> (c: char)
    requires
        d < 16,
    ensures
        c == hex_digit(d as int),
{
    if d < 10 {
        char_from_ascii(48 + d)
    } else {
        char_from_ascii(87 + d)
    }
}

/// Appends `n` in lower-case hexadecimal.
pub fn push_lower_hex(s: &mut String, n: u32)
    ensures
        final(s)@ == old(s)@ + lower_hex(n as nat),
    decreases n,
{
    if n < 16 {
        push_char(s, hex_digit_char(n));
    } else {
        push_lower_hex(s, n / 16);
        push_char(s, hex_digit_char(n % 16));
    }
}

/// Appends each byte as two lower-case hexadecimal digits.
pub fn push_hex_bytes(s: &mut String, b: &Vec<u8>)
    ensures
        final(s)@ == old(s)@ + hex_bytes(b@),
{
    let mut i: usize = 0;
    while i < b.len()
        invariant
            i <= b.len(),
            s@ == old(s)@ + hex_bytes(b@.take(i as int)),
        decreases b.len() - i,
    {
        assert(b@.take(i + 1).drop_last() == b@.take(i as int));
        let x: u8 = b[i];
        push_char(s, hex_digit_char((x / 16) as u32));
        push_char(s, hex_digit_char((x % 16) as u32));
        i = i + 1;
    }
    assert(b@.take(b.len() as int) == b@);
}

proof fn lemma_before_dot_prefix(s: Seq<char>, j: int)
    requires
        0 <= j <= s.len(),
        forall|k: int| 0 <= k < j ==> s[k] != '.',
        j == s.len() || s[j] == '.',
    ensures
        before_dot(s) == s.take(j),
    decreases s.len(),
{
    if s.len() == 0 {
        assert(s.take(j) =~= Seq::<char>::empty());
    } else if j == 0 {
        assert(s.take(j) =~= Seq::<char>::empty());
    } else {
        lemma_before_dot_prefix(s.drop_first(), j - 1);
        assert(seq![s[0]] + s.drop_first().take(j - 1) =~= s.take(j));
    }
}

/// The development hash of `text`.
fn dev_hash_of(text: &str) -> (h: String)
    ensures
        h@ == dev_hash(text@),
{
    let cs = chars_of(text);
    let mut replaced: Vec<char> = Vec::new();
    let mut i: usize = 0;
    while i < cs.len()
        invariant
            cs@ == text@,
            i <= cs.len(),
            replaced@ == replace_separators(cs@.take(i as int)),
        decreases cs.len() - i,
    {
        assert(cs@.take(i + 1).drop_last() == cs@.take(i as int));
        let c = cs[i];
        if c == '/' || c == '\\' {
            replaced.push('_');
            replaced.push('_');
        } else {
            replaced.push(c);
        }
        proof {
            let r0 = replace_separators(cs@.take(i as int));
            assert(cs@.take(i + 1).last() == c);
            if c == '/' || c == '\\' {
                assert(replaced@ =~= r0 + seq!['_', '_']);
            } else {
                assert(replaced@ =~= r0 + seq![c]);
            }
        }
        i = i + 1;
    }
    assert(cs@.take(cs.len() as int) == cs@);
    let mut j: usize = 0;
    while j < replaced.len() && replaced[j] != '.'
        invariant
            j <= replaced.len(),
            forall|k: int| 0 <= k < j ==> replaced@[k] != '.',
        decreases replaced.len() - j,
    {
        j = j + 1;
    }
    proof {
        lemma_before_dot_prefix(replaced@, j as int);
    }
    string_of(&replaced, 0, j)
}

/// The hash of a file path or a class name. In development it is the path with its
/// separators spelled `__`, up to the first dot; in production it is the CRC-32 checksum
/// of the text's UTF-8 bytes in lower-case hexadecimal.
pub fn hash(text: &str, is_dev: bool) -> (h: String)
    ensures
        h@ == spec_hash(text@, is_dev),
{
    if is_dev {
        dev_hash_of(text)
    } else {
        let bytes = utf8_bytes(text);
        let checksum = crc32_hash(bytes.as_slice());
        let mut s = String::new();
        push_lower_hex(&mut s, checksum);
        s
    }
}

/// The hash of a class within a file.
pub fn combine_hash(file_hash: &str, class_hash: &str, is_dev: bool) -> (h: String)
    ensures
        h@ == spec_combine_hash(file_hash@, class_hash@, is_dev),
{
    let mut s = to_owned(file_hash);
    if is_dev {
        push_str(&mut s, "___");
        proof {
            reveal_strlit("___");
        }
    }
    push_str(&mut s, class_hash);
    s
}

/// A lower-case hexadecimal digit.
pub open spec fn is_hex_digit(c: char) -> bool {
    ('0' <= c && c <= '9') || ('a' <= c && c <= 'f')
}

/// Only lower-case hexadecimal digits.
pub open spec fn all_hex(s: Seq<char>) -> bool {
    forall|i: int| 0 <= i < s.len() ==> is_hex_digit(#[trigger] s[i])
}

/// The value of a lower-case hexadecimal digit.
pub open spec fn hex_value(c: char) -> int {
    if c <= '9' {
        (c as int) - 48
    } else {
        (c as int) - 87
    }
}

/// The number that lower-case hexadecimal digits write.
pub open spec fn parse_hex(s: Seq<char>) -> int
    decreases s.len(),
{
    if s.len() == 0 {
        0
    } else {
        parse_hex(s.drop_last()) * 16 + hex_value(s.last())
    }
}

/// Powers of sixteen.
pub open spec fn pow16(k: nat) -> nat
    decreases k,
{
    if k == 0 {
        1
    } else {
        16 * pow16((k - 1) as nat)
    }
}

proof fn lemma_hex_digit(d: int)
    requires
        0 <= d < 16,
    ensures
        is_hex_digit(hex_digit(d)),
        hex_value(hex_digit(d)) == d,
{
}

/// Law: a number written in lower-case hexadecimal is read back as the same number,
/// with digits only, at least one, and no more than `k` when it is below `16^k`.
pub proof fn law_lower_hex(n: nat, k: nat)
    requires
        k >= 1,
        n < pow16(k),
    ensures
        all_hex(lower_hex(n)),
        parse_hex(lower_hex(n)) == n,
        1 <= lower_hex(n).len() <= k,
    decreases n,
{
    if n < 16 {
        lemma_hex_digit(n as int);
        assert(lower_hex(n).drop_last() =~= Seq::<char>::empty());
        assert(parse_hex(lower_hex(n)) == parse_hex(Seq::<char>::empty()) * 16 + hex_value(lower_hex(n).last()));
    } else {
        let q = n / 16;
        let r = n % 16;
        assert(k >= 2) by {
            if k == 1 {
                assert(pow16(1) == 16 * pow16(0));
            }
        }
        assert(pow16(k) == 16 * pow16((k - 1) as nat));
        assert(q < pow16((k - 1) as nat)) by (nonlinear_arith)
            requires
                q == n / 16,
                n < 16 * pow16((k - 1) as nat),
        ;
        law_lower_hex(q, (k - 1) as nat);
        lemma_hex_digit(r as int);
        let h = lower_hex(n);
        assert(h == lower_hex(q).push(hex_digit(r as int)));
        assert(h.drop_last() =~= lower_hex(q));
        assert(n == q * 16 + r) by (nonlinear_arith)
            requires
                q == n / 16,
                r == n % 16,
        ;
        assert forall|i: int| 0 <= i < h.len() implies is_hex_digit(#[trigger] h[i]) by {
            if i < h.len() - 1 {
                assert(h[i] == lower_hex(q)[i]);
            }
        }
        assert(h.last() == hex_digit(r as int));
        assert(parse_hex(h) == parse_hex(lower_hex(q)) * 16 + hex_value(h.last()));
        assert(parse_hex(lower_hex(q)) == q);
    }
}

/// Law: a production hash is the checksum written with one to eight lower-case
/// hexadecimal digits.
pub proof fn law_production_hash(text: Seq<char>)
    ensures
        all_hex(spec_hash(text, false)),
        1 <= spec_hash(text, false).len() <= 8,
        parse_hex(spec_hash(text, false)) == crc32_checksum(vstd::utf8::encode_utf8(text)) as int,
{
    assert(pow16(8) == 4294967296) by {
        reveal_with_fuel(pow16, 9);
    }
    law_lower_hex(crc32_checksum(vstd::utf8::encode_utf8(text)) as nat, 8);
}

proof fn lemma_replace_separators(s: Seq<char>)
    ensures
        forall|i: int| 0 <= i < replace_separators(s).len() ==> !is_separator(#[trigger] replace_separators(s)[i]),
        forall|i: int| 0 <= i < replace_separators(s).len() && #[trigger] replace_separators(s)[i] == '.' ==> s.contains('.'),
    decreases s.len(),
{
    if s.len() > 0 {
        let d = s.drop_last();
        lemma_replace_separators(d);
        let r = replace_separators(s);
        let rd = replace_separators(d);
        assert forall|i: int| 0 <= i < r.len() implies !is_separator(#[trigger] r[i]) && (r[i] == '.' ==> s.contains('.')) by {
            if i < rd.len() {
                assert(r[i] == rd[i]);
                if r[i] == '.' {
                    let j = choose|j: int| 0 <= j < d.len() && d[j] == '.';
                    assert(s[j] == '.');
                }
            } else {
                if r[i] == '.' {
                    assert(s[s.len() - 1] == '.');
                }
            }
        }
    }
}

proof fn lemma_before_dot(s: Seq<char>)
    ensures
        before_dot(s).len() <= s.len(),
        forall|i: int| 0 <= i < before_dot(s).len() ==> #[trigger] before_dot(s)[i] == s[i] && s[i] != '.',
    decreases s.len(),
{
    if s.len() > 0 && s[0] != '.' {
        let t = s.drop_first();
        lemma_before_dot(t);
        let b = before_dot(s);
        assert forall|i: int| 0 <= i < b.len() implies #[trigger] b[i] == s[i] && s[i] != '.' by {
            if i > 0 {
                assert(b[i] == before_dot(t)[i - 1]);
                assert(t[i - 1] == s[i]);
            }
        }
    }
}

/// Law: a development hash holds no path separator and no dot, and it is the whole
/// path (separators spelled `__`) when the path has no dot.
pub proof fn law_development_hash(text: Seq<char>)
    ensures
        forall|i: int| 0 <= i < dev_hash(text).len() ==> !is_separator(#[trigger] dev_hash(text)[i]) && dev_hash(text)[i] != '.',
        !text.contains('.') ==> dev_hash(text) == replace_separators(text),
{
    let r = replace_separators(text);
    lemma_replace_separators(text);
    lemma_before_dot(r);
    let h = dev_hash(text);
    assert forall|i: int| 0 <= i < h.len() implies !is_separator(#[trigger] h[i]) && h[i] != '.' by {
        assert(h[i] == r[i]);
    }
    if !text.contains('.') {
        assert forall|k: int| 0 <= k < r.len() implies r[k] != '.' by {
            if r[k] == '.' {
                assert(text.contains('.'));
            }
        }
        lemma_before_dot_prefix(r, r.len() as int);
        assert(r.take(r.len() as int) =~= r);
    }
}

/// Law: bytes in hexadecimal take two digits each, all of them hexadecimal digits.
pub proof fn law_hex_bytes(b: Seq<u8>)
    ensures
        hex_bytes(b).len() == 2 * b.len(),
        all_hex(hex_bytes(b)),
    decreases b.len(),
{
    if b.len() > 0 {
        law_hex_bytes(b.drop_last());
        let x = b.last();
        lemma_hex_digit((x / 16) as int);
        lemma_hex_digit((x % 16) as int);
        let h = hex_bytes(b);
        let d = hex_bytes(b.drop_last());
        assert forall|i: int| 0 <= i < h.len() implies is_hex_digit(#[trigger] h[i]) by {
            if i < d.len() {
                assert(h[i] == d[i]);
            }
        }
    }
}

/// Without separators the text is unchanged by their replacement.
pub proof fn lemma_replace_separators_plain(s: Seq<char>)
    requires
        forall|i: int| 0 <= i < s.len() ==> !is_separator(#[trigger] s[i]),
    ensures
        replace_separators(s) == s,
    decreases s.len(),
{
    if s.len() > 0 {
        let d = s.drop_last();
        assert forall|i: int| 0 <= i < d.len() implies !is_separator(#[trigger] d[i]) by {
            assert(d[i] == s[i]);
        }
        lemma_replace_separators_plain(d);
        assert(!is_separator(s[s.len() - 1]));
        assert(d + seq![s.last()] =~= s);
    } else {
        assert(s =~= Seq::<char>::empty());
    }
}

} // verus!
