//! Reading a version from text: split on `.`, and read each segment as a
//! decimal number, or as zero where it is not one.

use vstd::prelude::*;

verus! {

/// `c` is an ASCII decimal digit.
pub open spec fn is_digit(c: char) -> bool {
    '0' <= c && c <= '9'
}

/// The value of the decimal digit `c`.
pub open spec fn digit_value(c: char) -> nat {
    (c as u32 - '0' as u32) as nat
}

/// The number that the decimal digits `s` write, most significant first.
pub open spec fn digits_value(s: Seq<char>) -> nat
    decreases s.len(),
{
    if s.len() == 0 {
        0
    } else {
        digits_value(s.drop_last()) * 10 + digit_value(s.last())
    }
}

/// `s` is a non-empty run of decimal digits: no sign, point or other text.
pub open spec fn is_numeral(s: Seq<char>) -> bool {
    s.len() > 0 && forall|i: int| 0 <= i < s.len() ==> is_digit(#[trigger] s[i])
}

/// The value of one segment: the number it writes when it is a numeral that
/// fits in a `u64`, and zero otherwise.
pub open spec fn segment_value(s: Seq<char>) -> u64 {
    if is_numeral(s) && digits_value(s) <= u64::MAX {
        digits_value(s) as u64
    } else {
        0
    }
}

/// The pieces of `s` between dots, in order. Empty text gives one empty
/// piece, and every dot starts a new piece.
pub open spec fn split_on_dots(s: Seq<char>) -> Seq<Seq<char>>
    decreases s.len(),
{
    if s.len() == 0 {
        seq![Seq::empty()]
    } else {
        let init = split_on_dots(s.drop_last());
        if s.last() == '.' {
            init.push(Seq::empty())
        } else {
            init.update(init.len() - 1, init.last().push(s.last()))
        }
    }
}

/// The segments that text `s` stands for.
pub open spec fn parse_segments(s: Seq<char>) -> Seq<u64> {
    split_on_dots(s).map_values(|piece: Seq<char>| segment_value(piece))
}

/// Splitting always gives at least one piece.
pub proof fn lemma_split_nonempty(s: Seq<char>)
    ensures
        split_on_dots(s).len() >= 1,
    decreases s.len(),
{
    if s.len() > 0 {
        lemma_split_nonempty(s.drop_last());
    }
}

/// Splitting a concatenation: the last piece of `s` and the first piece of
/// `t` join into one piece; the other pieces are kept.
pub proof fn lemma_split_append(s: Seq<char>, t: Seq<char>)
    ensures
        split_on_dots(s + t) == split_on_dots(s).drop_last() + seq![
            split_on_dots(s).last() + split_on_dots(t)[0],
        ] + split_on_dots(t).drop_first(),
    decreases t.len(),
{
    lemma_split_nonempty(s);
    let ss = split_on_dots(s);
    if t.len() == 0 {
        assert(s + t =~= s);
        assert(ss.last() + Seq::<char>::empty() =~= ss.last());
        assert(ss.drop_last() + seq![ss.last()] =~= ss);
        assert(split_on_dots(t).drop_first() =~= Seq::<Seq<char>>::empty());
        assert(ss.drop_last() + seq![ss.last()] + Seq::<Seq<char>>::empty() =~= ss);
    } else {
        let t0 = t.drop_last();
        let c = t.last();
        lemma_split_append(s, t0);
        lemma_split_nonempty(t0);
        assert((s + t).drop_last() =~= s + t0);
        assert((s + t).last() == c);
        let t0s = split_on_dots(t0);
        let a = ss.drop_last();
        let joined = ss.last() + t0s[0];
        let rest = t0s.drop_first();
        let whole = split_on_dots(s + t0);
        assert(whole == a + seq![joined] + rest);
        if c == '.' {
            assert(split_on_dots(t) == t0s.push(Seq::empty()));
            assert(split_on_dots(t)[0] == t0s[0]);
            assert(split_on_dots(t).drop_first() =~= rest.push(Seq::empty()));
            assert(whole.push(Seq::empty()) =~= a + seq![joined] + rest.push(Seq::empty()));
        } else {
            let ts = t0s.update(t0s.len() - 1, t0s.last().push(c));
            assert(split_on_dots(t) == ts);
            if t0s.len() == 1 {
                assert(rest =~= Seq::<Seq<char>>::empty());
                assert(ts[0] == t0s[0].push(c));
                assert(ts.drop_first() =~= Seq::<Seq<char>>::empty());
                assert(joined.push(c) =~= ss.last() + ts[0]);
                assert(whole.update(whole.len() - 1, whole.last().push(c)) =~= a + seq![
                    ss.last() + ts[0],
                ] + ts.drop_first());
            } else {
                assert(ts[0] == t0s[0]);
                assert(ts.drop_first() =~= rest.update(rest.len() - 1, rest.last().push(c)));
                assert(whole.update(whole.len() - 1, whole.last().push(c)) =~= a + seq![joined]
                    + ts.drop_first());
            }
        }
    }
}

/// Text without a dot is a single piece.
pub proof fn lemma_split_no_dots(p: Seq<char>)
    requires
        forall|i: int| 0 <= i < p.len() ==> p[i] != '.',
    ensures
        split_on_dots(p) == seq![p],
    decreases p.len(),
{
    if p.len() > 0 {
        lemma_split_no_dots(p.drop_last());
        assert(p.drop_last().push(p.last()) =~= p);
        assert(seq![p.drop_last()].update(0, p.drop_last().push(p.last())) =~= seq![p]);
    } else {
        assert(p =~= Seq::<char>::empty());
    }
}

/// Text that is empty or ends with a dot ends with an empty piece.
pub proof fn lemma_split_last_empty(s: Seq<char>)
    requires
        s.len() == 0 || s.last() == '.',
    ensures
        split_on_dots(s).last() == Seq::<char>::empty(),
{
}

/// Text that is empty or starts with a dot starts with an empty piece.
pub proof fn lemma_split_first_empty(s: Seq<char>)
    requires
        s.len() == 0 || s[0] == '.',
    ensures
        split_on_dots(s)[0] == Seq::<char>::empty(),
        s.len() > 0 ==> split_on_dots(s).len() >= 2,
    decreases s.len(),
{
    if s.len() > 1 {
        let s0 = s.drop_last();
        assert(s0[0] == '.');
        lemma_split_first_empty(s0);
        let init = split_on_dots(s0);
        if s.last() == '.' {
            assert(split_on_dots(s) == init.push(Seq::empty()));
        } else {
            assert(split_on_dots(s) == init.update(init.len() - 1, init.last().push(s.last())));
        }
    } else if s.len() == 1 {
        assert(s.drop_last() =~= Seq::<char>::empty());
        assert(s.last() == '.');
        assert(split_on_dots(s.drop_last()) == seq![Seq::<char>::empty()]);
        assert(split_on_dots(s) == seq![Seq::<char>::empty()].push(Seq::empty()));
    }
}

/// The segment values of the text `text`, in order.
pub fn parse_text(text: &str) -> (r: Vec<u64>)
    ensures
        r@ == parse_segments(text@),
{
    let mut values: Vec<u64> = Vec::new();
    // The piece being read: whether it holds only digits, whether those
    // overflow a u64, and their value while they do not.
    let mut empty: bool = true;
    let mut digits_only: bool = true;
    let mut overflow: bool = false;
    let mut value: u64 = 0;
    let ghost mut piece: Seq<char> = Seq::empty();
    let ghost chars = text@;
    for c in it: text.chars()
        invariant
            it.seq() == chars,
            split_on_dots(chars.take(it.index())).len() >= 1,
            piece == split_on_dots(chars.take(it.index())).last(),
            values@ == split_on_dots(chars.take(it.index())).drop_last().map_values(
                |p: Seq<char>| segment_value(p),
            ),
            empty == (piece.len() == 0),
            digits_only == (forall|i: int| 0 <= i < piece.len() ==> is_digit(#[trigger] piece[i])),
            digits_only && !overflow ==> value == digits_value(piece),
            digits_only && overflow ==> digits_value(piece) > u64::MAX,
    {
        let ghost before = chars.take(it.index());
        let ghost after = chars.take(it.index() + 1);
        proof {
            assert(after.drop_last() =~= before);
            assert(after.last() == c);
            lemma_split_nonempty(after);
        }
        if c == '.' {
            let v: u64 = if digits_only && !empty && !overflow {
                value
            } else {
                0
            };
            assert(v == segment_value(piece));
            values.push(v);
            proof {
                let segs = split_on_dots(before);
                assert(split_on_dots(after) == segs.push(Seq::empty()));
                assert(segs.push(Seq::empty()).drop_last() =~= segs);
                assert(segs =~= segs.drop_last().push(piece));
                assert(values@ =~= segs.map_values(|p: Seq<char>| segment_value(p)));
                piece = Seq::empty();
            }
            empty = true;
            digits_only = true;
            overflow = false;
            value = 0;
        } else {
            let ghost next = piece.push(c);
            proof {
                let segs = split_on_dots(before);
                assert(split_on_dots(after) == segs.update(segs.len() - 1, next));
                assert(segs.update(segs.len() - 1, next).drop_last() =~= segs.drop_last());
                assert(next.drop_last() =~= piece);
            }
            if '0' <= c && c <= '9' {
                if digits_only && !overflow {
                    let d: u64 = (c as u32 - '0' as u32) as u64;
                    match value.checked_mul(10) {
                        Some(tens) => match tens.checked_add(d) {
                            Some(v) => {
                                value = v;
                            },
                            None => {
                                overflow = true;
                            },
                        },
                        None => {
                            overflow = true;
                        },
                    }
                }
            } else {
                digits_only = false;
            }
            empty = false;
            proof {
                piece = next;
            }
        }
    }
    let v: u64 = if digits_only && !empty && !overflow {
        value
    } else {
        0
    };
    proof {
        let segs = split_on_dots(chars);
        assert(chars.take(chars.len() as int) =~= chars);
        assert(v == segment_value(piece));
        assert(segs =~= segs.drop_last().push(piece));
    }
    values.push(v);
    proof {
        let segs = split_on_dots(chars);
        assert(values@ =~= segs.map_values(|p: Seq<char>| segment_value(p)));
    }
    values
}

} // verus!
