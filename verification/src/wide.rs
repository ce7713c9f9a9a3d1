use vstd::prelude::*;

verus! {

/// The UTF-16 code units of one character: itself below `0x10000`, else a
/// surrogate pair.
pub open spec fn utf16_of_char(c: char) -> Seq<u16> {
    let v = c as u32 as int;
    if v < 0x10000 {
        seq![v as u16]
    } else {
        seq![(0xD800 + (v - 0x10000) / 0x400) as u16, (0xDC00 + (v - 0x10000) % 0x400) as u16]
    }
}

/// The UTF-16 encoding of a character sequence.
pub open spec fn utf16_of(chars: Seq<char>) -> Seq<u16>
    decreases chars.len(),
{
    if chars.len() == 0 {
        Seq::empty()
    } else {
        utf16_of(chars.drop_last()) + utf16_of_char(chars.last())
    }
}

/// Reads UTF-16 code units back as characters: a high surrogate followed by
/// another unit is a pair, any other unit is a character of its own.
pub open spec fn decode_utf16(u: Seq<u16>) -> Seq<char>
    decreases u.len(),
{
    if u.len() == 0 {
        Seq::empty()
    } else if 0xD800 <= u[0] < 0xDC00 && u.len() >= 2 {
        seq![(((u[0] - 0xD800) * 0x400 + (u[1] - 0xDC00) + 0x10000) as u32) as char]
            + decode_utf16(u.subrange(2, u.len() as int))
    } else {
        seq![(u[0] as u32) as char] + decode_utf16(u.drop_first())
    }
}

/// Each character is standard UTF-16: below `0x10000`, one unit equal to its
/// scalar value; from `0x10000` on, a high surrogate then a low surrogate
/// that together give back its scalar value.
pub proof fn law_utf16_of_char(c: char)
    ensures
        (c as u32) < 0x10000 ==> utf16_of_char(c) == seq![(c as u32) as u16]
            && utf16_of_char(c)[0] == c as u32,
        (c as u32) >= 0x10000 ==> {
            let u = utf16_of_char(c);
            &&& u.len() == 2
            &&& 0xD800 <= u[0] < 0xDC00
            &&& 0xDC00 <= u[1] < 0xE000
            &&& (u[0] - 0xD800) * 0x400 + (u[1] - 0xDC00) + 0x10000 == c as u32
        },
{
    vstd::utf8::char_is_scalar(c);
    let v = c as u32 as int;
    if v >= 0x10000 {
        let w = v - 0x10000;
        assert(w <= 0xFFFFF);
        assert(w / 0x400 <= 0x3FF) by (nonlinear_arith)
            requires
                0 <= w <= 0xFFFFF,
        ;
        assert(0 <= w % 0x400 < 0x400) by (nonlinear_arith)
            requires
                0 <= w,
        ;
        assert((w / 0x400) * 0x400 + w % 0x400 == w) by (nonlinear_arith)
            requires
                0 <= w,
        ;
    }
}

/// Encoding is piecewise: the units of two strings joined are the units of
/// each, joined.
pub proof fn lemma_utf16_of_concat(a: Seq<char>, b: Seq<char>)
    ensures
        utf16_of(a + b) == utf16_of(a) + utf16_of(b),
    decreases b.len(),
{
    if b.len() == 0 {
        assert(a + b =~= a);
        assert(utf16_of(a) + utf16_of(b) =~= utf16_of(a));
    } else {
        lemma_utf16_of_concat(a, b.drop_last());
        assert((a + b).drop_last() =~= a + b.drop_last());
        assert((a + b).last() == b.last());
        assert(utf16_of(a + b) =~= utf16_of(a) + utf16_of(b.drop_last()) + utf16_of_char(b.last()));
    }
}

/// Decoding the UTF-16 of a string gives the string back.
pub proof fn law_utf16_round_trip(s: Seq<char>)
    ensures
        decode_utf16(utf16_of(s)) == s,
    decreases s.len(),
{
    if s.len() > 0 {
        let c = s[0];
        let rest = s.drop_first();
        assert(s =~= seq![c] + rest);
        lemma_utf16_of_concat(seq![c], rest);
        assert(seq![c].drop_last() =~= Seq::<char>::empty());
        assert(seq![c].last() == c);
        assert(utf16_of(Seq::<char>::empty()) == Seq::<u16>::empty());
        assert(utf16_of(seq![c]) == utf16_of(seq![c].drop_last()) + utf16_of_char(c));
        assert(utf16_of(seq![c]) =~= utf16_of_char(c));
        law_utf16_round_trip(rest);
        law_utf16_of_char(c);
        vstd::utf8::char_is_scalar(c);
        let u = utf16_of(s);
        let head = utf16_of_char(c);
        assert(u == head + utf16_of(rest));
        if (c as u32) < 0x10000 {
            assert(!(0xD800 <= c as u32 <= 0xDFFF));
            assert(u[0] == head[0]);
            assert(u.drop_first() =~= utf16_of(rest));
            vstd::utf8::char_u32_cast(c, u[0] as u32);
        } else {
            assert(u[0] == head[0] && u[1] == head[1]);
            assert(u.subrange(2, u.len() as int) =~= utf16_of(rest));
            let v = ((u[0] - 0xD800) * 0x400 + (u[1] - 0xDC00) + 0x10000) as u32;
            assert(v == c as u32);
            vstd::utf8::char_u32_cast(c, v);
        }
        assert(decode_utf16(u) =~= seq![c] + rest);
    }
}

/// The wide string that C APIs take: the UTF-16 encoding of `s`, ended by a
/// zero unit.
pub fn to_wstring(s: &str) -> (r: Vec<u16>)
    ensures
        r@ == utf16_of(s@).push(0),
        r@.last() == 0,
        decode_utf16(r@.drop_last()) == s@,
{
    proof {
        law_utf16_round_trip(s@);
    }
    let mut r: Vec<u16> = Vec::new();
    for c in it: s.chars()
        invariant
            it.seq() == s@,
            r@ == utf16_of(s@.take(it.index() as int)),
    {
        proof {
            vstd::utf8::char_is_scalar(c);
            assert(s@.take(it.index() + 1).drop_last() =~= s@.take(it.index() as int));
        }
        let v = c as u32;
        if v < 0x10000 {
            r.push(v as u16);
        } else {
            let w = v - 0x10000;
            r.push((0xD800 + w / 0x400) as u16);
            r.push((0xDC00 + w % 0x400) as u16);
        }
        assert(r@ =~= utf16_of(s@.take(it.index() + 1)));
    }
    assert(s@.take(s@.len() as int) =~= s@);
    r.push(0);
    assert(r@.drop_last() =~= utf16_of(s@));
    r
}

} // verus!
