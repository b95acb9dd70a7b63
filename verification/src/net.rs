//! Parsing of dotted-quad addresses from configuration text.

use vstd::prelude::*;
use vstd::string::StrSliceExecFns;

verus! {

/// An ASCII decimal digit.
pub open spec fn is_digit(c: char) -> bool {
    '0' <= c && c <= '9'
}

/// Value of one decimal digit.
pub open spec fn digit_val(c: char) -> int {
    c as int - '0' as int
}

/// Every character of the sequence is a decimal digit.
pub open spec fn all_digits(s: Seq<char>) -> bool {
    forall|i: int| 0 <= i < s.len() ==> is_digit(#[trigger] s[i])
}

/// Value of a digit string, most significant digit first.
pub open spec fn digits_val(s: Seq<char>) -> int
    decreases s.len(),
{
    if s.len() == 0 {
        0
    } else {
        digits_val(s.drop_last()) * 10 + digit_val(s.last())
    }
}

/// The digit part of an octet: a single leading `+` sign is accepted and
/// skipped, as the standard library's unsigned decimal parser does.
pub open spec fn octet_digits(s: Seq<char>) -> Seq<char> {
    if s.len() > 0 && s[0] == '+' {
        s.drop_first()
    } else {
        s
    }
}

/// A segment parses as one octet: at least one digit after the optional
/// sign, digits only, value at most 255.
pub open spec fn is_valid_octet(s: Seq<char>) -> bool {
    let d = octet_digits(s);
    d.len() >= 1 && all_digits(d) && digits_val(d) <= 255
}

/// Value of a valid octet segment.
pub open spec fn octet_value(s: Seq<char>) -> int {
    digits_val(octet_digits(s))
}

/// Index of the first `.`, or the length when there is none.
pub open spec fn first_dot(s: Seq<char>) -> int
    decreases s.len(),
{
    if s.len() == 0 {
        0
    } else if s[0] == '.' {
        0
    } else {
        1 + first_dot(s.drop_first())
    }
}

/// `first_dot` is a position in the string, everything before it is not a
/// dot, and it points at a dot unless there is none.
pub proof fn lemma_first_dot_props(s: Seq<char>)
    ensures
        0 <= first_dot(s) <= s.len(),
        first_dot(s) < s.len() ==> s[first_dot(s)] == '.',
        forall|i: int| 0 <= i < first_dot(s) ==> s[i] != '.',
    decreases s.len(),
{
    if s.len() > 0 && s[0] != '.' {
        lemma_first_dot_props(s.drop_first());
        assert forall|i: int| 0 <= i < first_dot(s) implies s[i] != '.' by {
            if i > 0 {
                assert(s.drop_first()[i - 1] != '.');
            }
        }
    }
}

/// A scan that stopped at `e` found the first dot.
pub proof fn lemma_first_dot_at(s: Seq<char>, e: int)
    requires
        0 <= e <= s.len(),
        forall|i: int| 0 <= i < e ==> s[i] != '.',
        e < s.len() ==> s[e] == '.',
    ensures
        first_dot(s) == e,
    decreases s.len(),
{
    if s.len() > 0 && s[0] != '.' {
        assert(e > 0);
        lemma_first_dot_at(s.drop_first(), e - 1);
    }
}

/// The string split at every `.`, as the standard splitter yields it: an
/// empty string is one empty segment, and every dot separates two
/// segments.
pub open spec fn split_dots(s: Seq<char>) -> Seq<Seq<char>>
    decreases s.len(),
    via split_dots_decreases
{
    if first_dot(s) == s.len() {
        seq![s]
    } else {
        seq![s.take(first_dot(s))] + split_dots(s.skip(first_dot(s) + 1))
    }
}

#[via_fn]
proof fn split_dots_decreases(s: Seq<char>) {
    lemma_first_dot_props(s);
}

/// The text parses as an address: at most four dot-separated segments,
/// each a valid octet. Fewer than four segments leave the remaining
/// octets zero.
pub open spec fn is_valid_ip(s: Seq<char>) -> bool {
    &&& split_dots(s).len() <= 4
    &&& forall|i: int| 0 <= i < split_dots(s).len() ==> is_valid_octet(#[trigger] split_dots(s)[i])
}

/// Octet `i` of the parsed address.
pub open spec fn ip_octet(s: Seq<char>, i: int) -> u8 {
    if 0 <= i < split_dots(s).len() {
        octet_value(split_dots(s)[i]) as u8
    } else {
        0
    }
}

/// A digit string's value, and every prefix's value, is nonnegative and
/// bounded by the whole string's value.
proof fn lemma_digits_val_bounds(s: Seq<char>)
    requires
        all_digits(s),
    ensures
        0 <= digits_val(s),
        forall|i: int| 0 <= i <= s.len() ==> #[trigger] digits_val(s.take(i)) <= digits_val(s),
    decreases s.len(),
{
    if s.len() == 0 {
        assert(s.take(0) =~= s);
    } else {
        let pre = s.drop_last();
        assert(all_digits(pre)) by {
            assert(forall|i: int| 0 <= i < pre.len() ==> pre[i] == s[i]);
        }
        lemma_digits_val_bounds(pre);
        assert(0 <= digit_val(s.last()));
        assert(digits_val(pre) * 10 >= digits_val(pre));
        assert forall|i: int| 0 <= i <= s.len() implies #[trigger] digits_val(s.take(i))
            <= digits_val(s) by {
            if i == s.len() {
                assert(s.take(i) =~= s);
            } else {
                assert(s.take(i) =~= pre.take(i));
                assert(digits_val(pre.take(i)) <= digits_val(pre));
            }
        }
    }
}

/// Extending a digit string by one digit multiplies its value by ten and
/// adds the digit.
proof fn lemma_digits_val_push(s: Seq<char>, c: char)
    ensures
        digits_val(s.push(c)) == digits_val(s) * 10 + digit_val(c),
{
    assert(s.push(c).drop_last() =~= s);
    assert(s.push(c).last() == c);
}

/// Parses one octet segment `[start, end)` of the text.
fn parse_octet(ip: &str, start: usize, end: usize) -> (v: u8)
    requires
        start <= end <= ip@.len(),
        is_valid_octet(ip@.subrange(start as int, end as int)),
    ensures
        v as int == octet_value(ip@.subrange(start as int, end as int)),
{
    let ghost seg = ip@.subrange(start as int, end as int);
    let mut i = start;
    if ip.get_char(start) == '+' {
        i = start + 1;
    }
    let ghost d0 = i as int;
    let ghost ds = octet_digits(seg);
    proof {
        assert(ds =~= ip@.subrange(d0, end as int));
        lemma_digits_val_bounds(ds);
    }
    let mut acc: u16 = 0;
    while i < end
        invariant
            0 <= d0 <= i <= end <= ip@.len(),
            ds == ip@.subrange(d0, end as int),
            all_digits(ds),
            digits_val(ds) <= 255,
            acc == digits_val(ds.take(i - d0)),
            acc <= 255,
        decreases end - i,
    {
        let c = ip.get_char(i);
        proof {
            assert(c == ds[i - d0]);
            assert(is_digit(c));
            assert(ds.take(i - d0 + 1) =~= ds.take(i - d0).push(c));
            lemma_digits_val_push(ds.take(i - d0), c);
            lemma_digits_val_bounds(ds);
            assert(digits_val(ds.take(i - d0 + 1)) <= digits_val(ds));
            lemma_digits_val_bounds(ds.take(i - d0 + 1));
        }
        let d: u16 = (c as u32 - '0' as u32) as u16;
        acc = acc * 10 + d;
        i = i + 1;
    }
    proof {
        assert(ds.take(end - d0) =~= ds);
    }
    acc as u8
}

/// Parses a dotted-quad address. Segments fill the octets left to right;
/// missing segments leave zeroes, exactly as reading each segment with
/// the standard library's decimal parser into a four-octet array would.
pub fn parse_ip(ip: &str) -> (r: [u8; 4])
    requires
        is_valid_ip(ip@),
    ensures
        forall|i: int| 0 <= i < 4 ==> r@[i] == ip_octet(ip@, i),
{
    let ghost segs = split_dots(ip@);
    let n = ip.unicode_len();
    let mut o0: u8 = 0;
    let mut o1: u8 = 0;
    let mut o2: u8 = 0;
    let mut o3: u8 = 0;
    let mut p: usize = 0;
    let mut k: usize = 0;
    proof {
        assert(ip@.skip(0) =~= ip@);
        assert(segs.skip(0) =~= segs);
        if first_dot(ip@) == ip@.len() {
            assert(segs.len() == 1);
        } else {
            assert(segs.len() >= 1);
        }
    }
    loop
        invariant
            is_valid_ip(ip@),
            segs == split_dots(ip@),
            n == ip@.len(),
            0 <= p <= n,
            k < segs.len() <= 4,
            split_dots(ip@.skip(p as int)) == segs.skip(k as int),
            k >= 1 ==> o0 == ip_octet(ip@, 0),
            k >= 2 ==> o1 == ip_octet(ip@, 1),
            k >= 3 ==> o2 == ip_octet(ip@, 2),
            k <= 1 ==> o1 == 0,
            k <= 2 ==> o2 == 0,
            o3 == 0,
        decreases n - p,
    {
        let ghost suffix = ip@.skip(p as int);
        let mut e: usize = p;
        while e < n && ip.get_char(e) != '.'
            invariant
                p <= e <= n,
                n == ip@.len(),
                forall|i: int| p <= i < e ==> ip@[i] != '.',
            decreases n - e,
        {
            e = e + 1;
        }
        proof {
            assert forall|i: int| 0 <= i < e - p implies suffix[i] != '.' by {
                assert(suffix[i] == ip@[p + i]);
            }
            if e < n {
                assert(suffix[e - p] == ip@[e as int]);
            }
            lemma_first_dot_at(suffix, e - p);
            assert(first_dot(suffix) == e - p);
            assert(segs.skip(k as int).len() >= 1);
            assert(segs[k as int] == segs.skip(k as int)[0]);
            if e - p == suffix.len() {
                assert(split_dots(suffix) == seq![suffix]);
                assert(segs[k as int] == suffix);
            } else {
                assert(split_dots(suffix) == seq![suffix.take(e - p)] + split_dots(
                    suffix.skip(e - p + 1),
                ));
                assert(segs[k as int] == suffix.take(e - p));
            }
            assert(suffix.take(e - p) =~= ip@.subrange(p as int, e as int));
            assert(suffix =~= ip@.subrange(p as int, n as int));
            assert(is_valid_octet(ip@.subrange(p as int, e as int)));
        }
        let v = parse_octet(ip, p, e);
        proof {
            assert(v as int == octet_value(segs[k as int]));
        }
        if k == 0 {
            o0 = v;
        } else if k == 1 {
            o1 = v;
        } else if k == 2 {
            o2 = v;
        } else {
            o3 = v;
        }
        if e == n {
            let r: [u8; 4] = [o0, o1, o2, o3];
            proof {
                assert(first_dot(suffix) == suffix.len());
                assert(split_dots(suffix) == seq![suffix]);
                assert(segs.skip(k as int).len() == 1);
                assert(k + 1 == segs.len());
                assert(r@[0] == o0 && r@[1] == o1 && r@[2] == o2 && r@[3] == o3);
            }
            return r;
        }
        proof {
            assert(e < n);
            assert(first_dot(suffix) == e - p < suffix.len());
            let rest = split_dots(suffix.skip(e - p + 1));
            assert(split_dots(suffix) == seq![suffix.take(e - p)] + rest);
            assert(suffix.skip(e - p + 1) =~= ip@.skip(e + 1));
            assert(split_dots(ip@.skip(e + 1)) == rest);
            assert(rest.len() >= 1) by {
                let tail = suffix.skip(e - p + 1);
                if first_dot(tail) == tail.len() {
                } else {
                }
            }
            assert(segs.skip(k as int).len() == 1 + rest.len());
            assert(k + 1 < segs.len());
            assert forall|j: int| 0 <= j < rest.len() implies rest[j] == segs.skip(k + 1)[j] by {
                assert((seq![suffix.take(e - p)] + rest)[j + 1] == rest[j]);
                assert(segs.skip(k as int)[j + 1] == segs[k + 1 + j]);
                assert(segs.skip(k + 1)[j] == segs[k + 1 + j]);
            }
            assert(rest =~= segs.skip(k + 1));
        }
        p = e + 1;
        k = k + 1;
    }
}

} // verus!
