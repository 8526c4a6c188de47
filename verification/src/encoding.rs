//! UTF-8 repair and message limiting.
//!
//! Checker and validator programs write arbitrary bytes; user-facing messages
//! must be valid UTF-8 and bounded in size.  `utf8_sanitize` replaces every
//! ill-formed byte with the replacement character, and `limit_message` caps a
//! message at [`MESSAGE_LIMIT`] bytes, cutting on a character boundary and
//! appending a horizontal-ellipsis character when it does cut.

use vstd::prelude::*;
use vstd::string::StringSliceAdditionalSpecFns;
use vstd::utf8::*;

verus! {

/// Maximum byte length of a user-facing message.
pub const MESSAGE_LIMIT: usize = 1024;

/// UTF-8 encoding of U+FFFD, the replacement character.
pub open spec fn replacement_bytes() -> Seq<u8> {
    seq![0xefu8, 0xbfu8, 0xbdu8]
}

/// UTF-8 encoding of U+2026, the horizontal ellipsis.
pub open spec fn ellipsis_bytes() -> Seq<u8> {
    seq![0xe2u8, 0x80u8, 0xa6u8]
}

/// `s` with every ill-formed byte replaced by the replacement character:
/// well-formed scalar encodings are copied through; at an ill-formed
/// position one byte is consumed and replaced.
pub open spec fn spec_sanitize(s: Seq<u8>) -> Seq<u8>
    decreases s.len(),
{
    if s.len() == 0 {
        Seq::empty()
    } else if valid_first_scalar(s) && 0 < length_of_first_scalar(s) <= s.len() {
        take_first_scalar(s) + spec_sanitize(pop_first_scalar(s))
    } else {
        replacement_bytes() + spec_sanitize(s.drop_first())
    }
}

proof fn lemma_replacement_valid()
    ensures
        valid_utf8(replacement_bytes()),
        valid_first_scalar(replacement_bytes()),
        length_of_first_scalar(replacement_bytes()) == 3,
{
    let b = replacement_bytes();
    assert(is_leading_byte_width_3(b[0]));
    assert(is_continuation_byte(b[1]) && is_continuation_byte(b[2]));
    assert(codepoint_width_3(0xef, 0xbf, 0xbd) == ((0xefu8 & 0x0f) as u32) << 12 | ((0xbfu8
        & 0x3f) as u32) << 6 | ((0xbdu8 & 0x3f) as u32));
    assert(((0xefu8 & 0x0f) as u32) << 12 | ((0xbfu8 & 0x3f) as u32) << 6 | ((0xbdu8
        & 0x3f) as u32) == 0xfffd) by (bit_vector);
    assert(valid_first_scalar(b));
    assert(pop_first_scalar(b) =~= Seq::<u8>::empty());
    assert(valid_utf8(Seq::<u8>::empty()));
}

proof fn lemma_ellipsis_valid()
    ensures
        valid_utf8(ellipsis_bytes()),
{
    let b = ellipsis_bytes();
    assert(is_leading_byte_width_3(b[0]));
    assert(is_continuation_byte(b[1]) && is_continuation_byte(b[2]));
    assert(codepoint_width_3(0xe2, 0x80, 0xa6) == ((0xe2u8 & 0x0f) as u32) << 12 | ((0x80u8
        & 0x3f) as u32) << 6 | ((0xa6u8 & 0x3f) as u32));
    assert(((0xe2u8 & 0x0f) as u32) << 12 | ((0x80u8 & 0x3f) as u32) << 6 | ((0xa6u8
        & 0x3f) as u32) == 0x2026) by (bit_vector);
    assert(valid_first_scalar(b));
    assert(length_of_first_scalar(b) == 3);
    assert(pop_first_scalar(b) =~= Seq::<u8>::empty());
    assert(valid_utf8(Seq::<u8>::empty()));
}

/// Every byte sequence comes out of the sanitizer as valid UTF-8.
pub proof fn lemma_sanitize_valid(s: Seq<u8>)
    ensures
        valid_utf8(spec_sanitize(s)),
    decreases s.len(),
{
    broadcast use valid_utf8_concat;

    if s.len() == 0 {
    } else if valid_first_scalar(s) && 0 < length_of_first_scalar(s) <= s.len() {
        let head = take_first_scalar(s);
        let tail = pop_first_scalar(s);
        lemma_sanitize_valid(tail);
        assert(valid_utf8(head)) by {
            assert(head.len() == length_of_first_scalar(s));
            assert(valid_first_scalar(head)) by {
                assert(head[0] == s[0]);
                if head.len() >= 2 {
                    assert(head[1] == s[1]);
                }
                if head.len() >= 3 {
                    assert(head[2] == s[2]);
                }
                if head.len() >= 4 {
                    assert(head[3] == s[3]);
                }
                assert(valid_leading_and_continuation_bytes_first_codepoint(head));
                assert(decode_first_codepoint(head) == decode_first_codepoint(s));
                assert(length_of_first_codepoint(head) == length_of_first_codepoint(s));
            }
            assert(length_of_first_scalar(head) == length_of_first_scalar(s));
            assert(pop_first_scalar(head) =~= Seq::<u8>::empty());
            assert(valid_utf8(Seq::<u8>::empty()));
        }
    } else {
        lemma_sanitize_valid(s.drop_first());
        lemma_replacement_valid();
    }
}

/// A sequence that is already valid UTF-8 passes through the sanitizer
/// unchanged.
pub proof fn lemma_sanitize_id(s: Seq<u8>)
    requires
        valid_utf8(s),
    ensures
        spec_sanitize(s) == s,
    decreases s.len(),
{
    if s.len() == 0 {
        assert(spec_sanitize(s) =~= s);
    } else {
        assert(valid_first_scalar(s));
        assert(0 < length_of_first_scalar(s) <= s.len());
        lemma_sanitize_id(pop_first_scalar(s));
        assert(take_first_scalar(s) + pop_first_scalar(s) =~= s);
    }
}

/// Validity and length of the first scalar encoding at position `i` of `s`:
/// returns its byte length, or `0` when `s` does not hold a well-formed
/// scalar encoding at `i`.
fn first_scalar_len(s: &[u8], i: usize) -> (r: usize)
    requires
        i < s@.len(),
    ensures
        ({
            let t = s@.subrange(i as int, s@.len() as int);
            &&& (r == 0 ==> !valid_first_scalar(t))
            &&& (r != 0 ==> valid_first_scalar(t) && r == length_of_first_scalar(t) && i + r
                <= s@.len())
        }),
{
    let ghost t = s@.subrange(i as int, s@.len() as int);
    let n = s.len();
    let b0 = s[i];
    assert(t[0] == b0);
    if b0 < 0x80 {
        assert(valid_first_scalar(t)) by {
            assert(is_leading_byte_width_1(b0));
        }
        return 1;
    }
    if b0 < 0xc2 {
        // continuation byte, or an overlong 2-byte lead (0xc0, 0xc1)
        assert(!valid_first_scalar(t)) by {
            if 0xc0 <= b0 <= 0xc1 && t.len() >= 2 && is_continuation_byte(t[1]) {
                let b1 = t[1];
                assert(codepoint_width_2(b0, b1) < 0x80) by (bit_vector)
                    requires
                        0xc0 <= b0 <= 0xc1 && 0x80 <= b1 <= 0xbf,
                ;
            }
        }
        return 0;
    }
    if b0 <= 0xdf {
        if i + 1 < n && 0x80 <= s[i + 1] && s[i + 1] <= 0xbf {
            let b1 = s[i + 1];
            assert(t[1] == b1);
            assert(valid_first_scalar(t)) by {
                assert(codepoint_width_2(b0, b1) >= 0x80) by (bit_vector)
                    requires
                        0xc2 <= b0 <= 0xdf && 0x80 <= b1 <= 0xbf,
                ;
                assert(codepoint_width_2(b0, b1) < 0xd800) by (bit_vector)
                    requires
                        0xc2 <= b0 <= 0xdf && 0x80 <= b1 <= 0xbf,
                ;
            }
            return 2;
        }
        assert(!valid_first_scalar(t)) by {
            if t.len() >= 2 {
                assert(t[1] == s@[i + 1]);
            }
        }
        return 0;
    }
    if b0 <= 0xef {
        if n - i > 2 && 0x80 <= s[i + 1] && s[i + 1] <= 0xbf && 0x80 <= s[i + 2] && s[i + 2]
            <= 0xbf {
            let b1 = s[i + 1];
            let b2 = s[i + 2];
            assert(t[1] == b1 && t[2] == b2);
            let cp_ok = (b0 > 0xe0 || b1 >= 0xa0) && !(b0 == 0xed && b1 >= 0xa0);
            proof {
                assert((codepoint_width_3(b0, b1, b2) >= 0x800 <==> (b0 > 0xe0 || b1 >= 0xa0))
                    && (0xd800 <= codepoint_width_3(b0, b1, b2) <= 0xdfff <==> (b0 == 0xed && b1
                    >= 0xa0))) by (bit_vector)
                    requires
                        0xe0 <= b0 <= 0xef && 0x80 <= b1 <= 0xbf && 0x80 <= b2 <= 0xbf,
                ;
            }
            if cp_ok {
                assert(valid_first_scalar(t));
                return 3;
            }
            assert(!valid_first_scalar(t));
            return 0;
        }
        assert(!valid_first_scalar(t)) by {
            if t.len() >= 2 {
                assert(t[1] == s@[i + 1]);
            }
            if t.len() >= 3 {
                assert(t[2] == s@[i + 2]);
            }
        }
        return 0;
    }
    if b0 <= 0xf7 {
        if n - i > 3 && 0x80 <= s[i + 1] && s[i + 1] <= 0xbf && 0x80 <= s[i + 2] && s[i + 2]
            <= 0xbf && 0x80 <= s[i + 3] && s[i + 3] <= 0xbf {
            let b1 = s[i + 1];
            let b2 = s[i + 2];
            let b3 = s[i + 3];
            assert(t[1] == b1 && t[2] == b2 && t[3] == b3);
            let cp_ok = (b0 > 0xf0 || b1 >= 0x90) && (b0 < 0xf4 || (b0 == 0xf4 && b1 <= 0x8f));
            proof {
                assert((codepoint_width_4(b0, b1, b2, b3) >= 0x10000 <==> (b0 > 0xf0 || b1 >= 0x90))
                    && (codepoint_width_4(b0, b1, b2, b3) <= 0x10ffff <==> (b0 < 0xf4 || (b0 == 0xf4
                    && b1 <= 0x8f)))) by (bit_vector)
                    requires
                        0xf0 <= b0 <= 0xf7 && 0x80 <= b1 <= 0xbf && 0x80 <= b2 <= 0xbf && 0x80 <= b3
                            <= 0xbf,
                ;
            }
            if cp_ok {
                assert(valid_first_scalar(t));
                return 4;
            }
            assert(!valid_first_scalar(t));
            return 0;
        }
        assert(!valid_first_scalar(t)) by {
            if t.len() >= 2 {
                assert(t[1] == s@[i + 1]);
            }
            if t.len() >= 3 {
                assert(t[2] == s@[i + 2]);
            }
            if t.len() >= 4 {
                assert(t[3] == s@[i + 3]);
            }
        }
        return 0;
    }
    assert(!valid_first_scalar(t));
    0
}

/// Repairs `s` into valid UTF-8, replacing each ill-formed byte with the
/// replacement character and keeping well-formed characters as they are.
pub fn utf8_sanitize(s: &[u8]) -> (r: Vec<u8>)
    ensures
        r@ == spec_sanitize(s@),
        valid_utf8(r@),
        valid_utf8(s@) ==> r@ == s@,
{
    let n = s.len();
    let mut r: Vec<u8> = Vec::new();
    let mut i: usize = 0;
    proof {
        assert(s@.subrange(0, s@.len() as int) =~= s@);
        assert(r@ + spec_sanitize(s@) =~= spec_sanitize(s@));
    }
    while i < n
        invariant
            0 <= i <= n == s@.len(),
            spec_sanitize(s@) == r@ + spec_sanitize(s@.subrange(i as int, s@.len() as int)),
        decreases n - i,
    {
        let ghost t = s@.subrange(i as int, s@.len() as int);
        let ghost prev = r@;
        let len = first_scalar_len(s, i);
        if len == 0 {
            r.push(0xef);
            r.push(0xbf);
            r.push(0xbd);
            proof {
                assert(t.drop_first() =~= s@.subrange(i + 1 as int, s@.len() as int));
                assert(spec_sanitize(t) == replacement_bytes() + spec_sanitize(t.drop_first()));
                assert(r@ =~= prev + replacement_bytes());
                assert(prev + (replacement_bytes() + spec_sanitize(t.drop_first())) =~= (prev
                    + replacement_bytes()) + spec_sanitize(t.drop_first()));
            }
            i += 1;
        } else {
            let end = i + len;
            let mut j = i;
            while j < end
                invariant
                    i <= j <= end <= s@.len(),
                    r@ =~= prev + s@.subrange(i as int, j as int),
                decreases end - j,
            {
                r.push(s[j]);
                assert(r@ =~= prev + s@.subrange(i as int, j + 1 as int));
                j += 1;
            }
            proof {
                assert(take_first_scalar(t) =~= s@.subrange(i as int, end as int));
                assert(pop_first_scalar(t) =~= s@.subrange(end as int, s@.len() as int));
                assert(spec_sanitize(t) == take_first_scalar(t) + spec_sanitize(
                    pop_first_scalar(t),
                ));
                assert(prev + (take_first_scalar(t) + spec_sanitize(pop_first_scalar(t))) =~= (prev
                    + take_first_scalar(t)) + spec_sanitize(pop_first_scalar(t)));
            }
            i = end;
        }
    }
    proof {
        assert(s@.subrange(i as int, s@.len() as int) =~= Seq::<u8>::empty());
        assert(spec_sanitize(Seq::<u8>::empty()) == Seq::<u8>::empty());
        assert(r@ + Seq::<u8>::empty() =~= r@);
        lemma_sanitize_valid(s@);
        if valid_utf8(s@) {
            lemma_sanitize_id(s@);
        }
    }
    r
}

/// Largest character-boundary candidate at or below `i`: walks left from `i`
/// over continuation bytes.
pub open spec fn spec_cut(s: Seq<u8>, i: int) -> int
    decreases i,
{
    if i <= 0 {
        0
    } else if 0 <= i < s.len() && !is_continuation_byte(s[i]) {
        i
    } else {
        spec_cut(s, i - 1)
    }
}

/// `s` limited to [`MESSAGE_LIMIT`] bytes: short messages are unchanged;
/// long ones are cut on a character boundary so that the appended ellipsis
/// still fits the limit.
pub open spec fn spec_limit(s: Seq<u8>) -> Seq<u8> {
    if s.len() <= MESSAGE_LIMIT {
        s
    } else {
        s.subrange(0, spec_cut(s, MESSAGE_LIMIT - 3)) + ellipsis_bytes()
    }
}

proof fn lemma_cut_bounds(s: Seq<u8>, i: int)
    ensures
        0 <= spec_cut(s, i) <= i || spec_cut(s, i) == 0,
        0 <= spec_cut(s, i),
        spec_cut(s, i) <= i || i < 0,
    decreases i,
{
    if i > 0 {
        lemma_cut_bounds(s, i - 1);
    }
}

/// The limited message never exceeds the limit.
pub proof fn lemma_limit_len(s: Seq<u8>)
    ensures
        spec_limit(s).len() <= MESSAGE_LIMIT,
{
    if s.len() > MESSAGE_LIMIT {
        lemma_cut_bounds(s, MESSAGE_LIMIT - 3);
    }
}

/// Limiting is idempotent: a second application changes nothing.
pub proof fn lemma_limit_idempotent(s: Seq<u8>)
    ensures
        spec_limit(spec_limit(s)) == spec_limit(s),
{
    lemma_limit_len(s);
}

proof fn lemma_cut_not_continuation(s: Seq<u8>, i: int)
    ensures
        spec_cut(s, i) == 0 || (0 <= spec_cut(s, i) < s.len() && !is_continuation_byte(
            s[spec_cut(s, i)],
        )),
    decreases i,
{
    if i > 0 {
        if 0 <= i < s.len() && !is_continuation_byte(s[i]) {
        } else {
            lemma_cut_not_continuation(s, i - 1);
        }
    }
}

/// Limiting a valid-UTF-8 message keeps it valid UTF-8.
pub proof fn lemma_limit_valid(s: Seq<u8>)
    requires
        valid_utf8(s),
    ensures
        valid_utf8(spec_limit(s)),
{
    broadcast use vstd::utf8::is_char_boundary_iff_not_is_continuation_byte;
    broadcast use vstd::utf8::valid_utf8_split;
    broadcast use vstd::utf8::valid_utf8_concat;

    if s.len() > MESSAGE_LIMIT {
        let cut = spec_cut(s, MESSAGE_LIMIT - 3);
        lemma_cut_bounds(s, MESSAGE_LIMIT - 3);
        lemma_cut_not_continuation(s, MESSAGE_LIMIT - 3);
        assert(is_char_boundary(s, cut)) by {
            if cut != 0 {
                assert(!is_continuation_byte(s[cut]));
            }
        }
        assert(valid_utf8(s.subrange(0, cut)));
        lemma_ellipsis_valid();
        assert(valid_utf8(s.subrange(0, cut) + ellipsis_bytes()));
    }
}

/// Caps a message at [`MESSAGE_LIMIT`] bytes.  A short message is returned
/// unchanged; a long one is cut on a UTF-8 character boundary and an
/// ellipsis is appended, keeping the result within the limit.
pub fn limit_message(s: &[u8]) -> (r: Vec<u8>)
    requires
        valid_utf8(s@),
    ensures
        r@ == spec_limit(s@),
        valid_utf8(r@),
        r@.len() <= MESSAGE_LIMIT,
{
    broadcast use vstd::utf8::is_char_boundary_iff_not_is_continuation_byte;
    broadcast use vstd::utf8::valid_utf8_split;
    broadcast use vstd::utf8::valid_utf8_concat;

    let n = s.len();
    if n <= MESSAGE_LIMIT {
        let mut r: Vec<u8> = Vec::new();
        let mut i: usize = 0;
        while i < n
            invariant
                0 <= i <= n == s@.len(),
                r@ =~= s@.subrange(0, i as int),
            decreases n - i,
        {
            r.push(s[i]);
            assert(r@ =~= s@.subrange(0, i + 1 as int));
            i += 1;
        }
        assert(r@ =~= s@);
        return r;
    }
    let mut cut: usize = MESSAGE_LIMIT - 3;
    while cut > 0 && 0x80 <= s[cut] && s[cut] <= 0xbf
        invariant
            0 <= cut <= MESSAGE_LIMIT - 3 < s@.len(),
            spec_cut(s@, MESSAGE_LIMIT - 3 as int) == spec_cut(s@, cut as int),
        decreases cut,
    {
        cut -= 1;
    }
    proof {
        assert(spec_cut(s@, cut as int) == cut) by {
            if cut > 0 {
                assert(!is_continuation_byte(s@[cut as int]));
            }
        }
        assert(is_char_boundary(s@, cut as int)) by {
            if cut > 0 {
                assert(!is_continuation_byte(s@[cut as int]));
            } else {
                assert(is_char_boundary(s@, 0));
            }
        }
    }
    let mut r: Vec<u8> = Vec::new();
    let mut i: usize = 0;
    while i < cut
        invariant
            0 <= i <= cut < s@.len(),
            r@ =~= s@.subrange(0, i as int),
        decreases cut - i,
    {
        r.push(s[i]);
        assert(r@ =~= s@.subrange(0, i + 1 as int));
        i += 1;
    }
    let ghost prefix = r@;
    r.push(0xe2);
    r.push(0x80);
    r.push(0xa6);
    proof {
        assert(prefix =~= s@.subrange(0, cut as int));
        assert(r@ =~= prefix + ellipsis_bytes());
        assert(valid_utf8(prefix));
        lemma_ellipsis_valid();
        assert(valid_utf8(prefix + ellipsis_bytes()));
    }
    r
}

/// Splitting valid UTF-8 after a run of leading ASCII bytes keeps both
/// sides valid.
pub proof fn lemma_ascii_prefix_split(s: Seq<u8>, a: int)
    requires
        valid_utf8(s),
        0 <= a <= s.len(),
        forall|i: int| 0 <= i < a ==> s[i] < 0x80,
    ensures
        valid_utf8(s.subrange(0, a)),
        valid_utf8(s.skip(a)),
    decreases a,
{
    broadcast use valid_utf8_concat;

    if a == 0 {
        assert(s.subrange(0, 0) =~= Seq::<u8>::empty());
        assert(valid_utf8(Seq::<u8>::empty()));
        assert(s.skip(0) =~= s);
    } else {
        lemma_ascii_prefix_split(s, a - 1);
        let u = s.skip(a - 1);
        assert(u.len() > 0);
        assert(u[0] == s[a - 1]);
        assert(is_leading_byte_width_1(u[0]));
        assert(valid_first_scalar(u));
        assert(length_of_first_scalar(u) == 1);
        assert(pop_first_scalar(u) =~= s.skip(a));
        assert(valid_utf8(s.skip(a)));
        let one = s.subrange(a - 1, a);
        assert(valid_utf8(one)) by {
            assert(one.len() == 1);
            assert(one[0] == s[a - 1]);
            assert(valid_first_scalar(one));
            assert(length_of_first_scalar(one) == 1);
            assert(pop_first_scalar(one) =~= Seq::<u8>::empty());
            assert(valid_utf8(Seq::<u8>::empty()));
        }
        assert(s.subrange(0, a) =~= s.subrange(0, a - 1) + one);
    }
}

/// Dropping a run of trailing ASCII bytes from valid UTF-8 keeps the front
/// valid.
pub proof fn lemma_ascii_tail_take(s: Seq<u8>, m: int)
    requires
        valid_utf8(s),
        0 <= m <= s.len(),
        forall|i: int| m <= i < s.len() ==> s[i] < 0x80,
    ensures
        valid_utf8(s.subrange(0, m)),
    decreases s.len() - m,
{
    broadcast use vstd::utf8::is_char_boundary_iff_not_is_continuation_byte;
    broadcast use vstd::utf8::valid_utf8_split;

    if m == s.len() {
        assert(s.subrange(0, m) =~= s);
    } else {
        let k = s.len() as int - 1;
        assert(s[k] < 0x80);
        assert(!is_continuation_byte(s[k]));
        assert(is_char_boundary(s, k));
        assert(valid_utf8(s.subrange(0, k)));
        let s2 = s.subrange(0, k);
        assert(forall|i: int| m <= i < s2.len() ==> #[trigger] s2[i] < 0x80);
        lemma_ascii_tail_take(s2, m);
        assert(s2.subrange(0, m) =~= s.subrange(0, m));
    }
}

/// Trimming ASCII whitespace from valid UTF-8 keeps it valid.
pub proof fn lemma_trim_valid(s: Seq<u8>)
    requires
        valid_utf8(s),
    ensures
        valid_utf8(crate::text::spec_trim(s)),
{
    let a = crate::text::spec_trim_start(s);
    let b = crate::text::spec_trim_end(s);
    crate::text::lemma_trim_start_bounds(s);
    crate::text::lemma_trim_end_bounds(s);
    if a <= b {
        assert(forall|i: int| 0 <= i < a ==> s[i] < 0x80) by {
            assert(forall|i: int|
                0 <= i < a ==> crate::text::spec_is_space(#[trigger] s[i]));
        }
        lemma_ascii_prefix_split(s, a);
        let u = s.skip(a);
        assert(forall|i: int| b - a <= i < u.len() ==> #[trigger] u[i] < 0x80) by {
            assert(forall|i: int|
                b <= i < s.len() ==> crate::text::spec_is_space(#[trigger] s[i]));
        }
        lemma_ascii_tail_take(u, b - a);
        assert(u.subrange(0, b - a) =~= s.subrange(a, b));
    } else {
        assert(crate::text::spec_trim(s) == Seq::<u8>::empty());
        assert(valid_utf8(Seq::<u8>::empty()));
    }
}

/// The bytes of a string literal, as a fresh vector.  Any `str` is valid
/// UTF-8, so the result is too.
pub fn lit_bytes(s: &str) -> (r: Vec<u8>)
    ensures
        r@ == s.spec_bytes(),
        valid_utf8(r@),
{
    let b = s.as_bytes();
    let n = b.len();
    let mut r: Vec<u8> = Vec::new();
    let mut i: usize = 0;
    while i < n
        invariant
            0 <= i <= n == b@.len(),
            r@ =~= b@.subrange(0, i as int),
        decreases n - i,
    {
        r.push(b[i]);
        assert(r@ =~= b@.subrange(0, i + 1 as int));
        i += 1;
    }
    proof {
        assert(r@ =~= b@);
        encode_utf8_valid_utf8(s@);
    }
    r
}

/// Appends valid UTF-8 to valid UTF-8; the whole stays valid.
pub fn append_valid(dst: &mut Vec<u8>, src: &[u8])
    requires
        valid_utf8(old(dst)@),
        valid_utf8(src@),
    ensures
        final(dst)@ == old(dst)@ + src@,
        valid_utf8(final(dst)@),
{
    crate::text::append_bytes(dst, src);
    proof {
        valid_utf8_concat(old(dst)@, src@);
    }
}

/// A sequence of bytes below 0x80 is valid UTF-8.
pub proof fn lemma_ascii_valid(s: Seq<u8>)
    requires
        forall|i: int| 0 <= i < s.len() ==> s[i] < 0x80,
    ensures
        valid_utf8(s),
{
    assert(forall|i: int| 0 <= i < s.len() ==> #[trigger] is_leading_byte_width_1(s[i]));
    assert(partial_valid_utf8(s, 0)) by {
        assert(s.subrange(0, 0) =~= Seq::<u8>::empty());
    }
    partial_valid_utf8_extend_ascii_block(s, 0, s.len() as int);
    assert(s.subrange(0, s.len() as int) =~= s);
}

} // verus!
