//! What a request asks for: substrings of its text and single-digit parameters.

use vstd::prelude::*;

verus! {

/// `t` stands in `s` at index `i`.
pub open spec fn occurs_at(s: Seq<u8>, i: int, t: Seq<u8>) -> bool {
    &&& 0 <= i
    &&& i + t.len() <= s.len()
    &&& s.subrange(i, i + t.len()) == t
}

/// `t` stands somewhere in `s`.
pub open spec fn occurs(s: Seq<u8>, t: Seq<u8>) -> bool {
    exists|i: int| occurs_at(s, i, t)
}

/// `key` stands in `req` at index `i`, followed by a decimal digit.
pub open spec fn digit_at(req: Seq<u8>, key: Seq<u8>, i: int) -> bool {
    &&& occurs_at(req, i, key)
    &&& i + key.len() < req.len()
    &&& 48 <= req[i + key.len()] <= 57
}

/// `i` is the first index at which `key` stands in `req` followed by a digit.
pub open spec fn first_digit_at(req: Seq<u8>, key: Seq<u8>, i: int) -> bool {
    &&& digit_at(req, key, i)
    &&& forall|j: int| 0 <= j < i ==> !digit_at(req, key, j)
}

/// The first digit that follows `key` in `req`, or `maxv` if it is larger; `default` if there is
/// none.
pub open spec fn digit_after(req: Seq<u8>, key: Seq<u8>, default: usize, maxv: usize) -> usize {
    if exists|i: int| first_digit_at(req, key, i) {
        let i = choose|i: int| first_digit_at(req, key, i);
        let d = (req[i + key.len()] - 48) as usize;
        if d <= maxv {
            d
        } else {
            maxv
        }
    } else {
        default
    }
}

/// Whether `t` stands in `s` at index `i`.
fn at(s: &[u8], i: usize, t: &[u8]) -> (r: bool)
    requires
        i + t@.len() <= s@.len(),
    ensures
        r == occurs_at(s@, i as int, t@),
{
    let room: usize = s.len();
    let mut k: usize = 0;
    while k < t.len()
        invariant
            k <= t@.len(),
            i + t@.len() <= s@.len() == room,
            forall|j: int| 0 <= j < k ==> s@[i + j] == #[trigger] t@[j],
        decreases t@.len() - k,
    {
        if s[i + k] != t[k] {
            assert(s@.subrange(i as int, i + t@.len())[k as int] != t@[k as int]);
            return false;
        }
        k = k + 1;
    }
    assert(s@.subrange(i as int, i + t@.len()) =~= t@);
    true
}

/// Parse a single decimal digit that follows `key` in the request, clamped to `maxv`; `default` if
/// there is none.
pub fn parse_digit(req: &[u8], key: &[u8], default: usize, maxv: usize) -> (v: usize)
    ensures
        v == digit_after(req@, key@, default, maxv),
{
    let kl: usize = key.len();
    if req.len() <= kl {
        return default;
    }
    let n: usize = req.len() - kl;
    let mut i: usize = 0;
    while i < n
        invariant
            i <= n,
            kl == key@.len(),
            n + kl == req@.len(),
            req@.len() <= usize::MAX,
            forall|j: int| 0 <= j < i ==> !digit_at(req@, key@, j),
        decreases n - i,
    {
        if at(req, i, key) {
            let d: u8 = req[i + kl];
            if 48 <= d && d <= 57 {
                let v: usize = (d - 48) as usize;
                assert(first_digit_at(req@, key@, i as int));
                assert forall|j: int| first_digit_at(req@, key@, j) implies j == i by {
                    assert(digit_at(req@, key@, j));
                }
                return if v <= maxv {
                    v
                } else {
                    maxv
                };
            }
        }
        i = i + 1;
    }
    default
}

/// Whether `hay` contains `needle`. Every string contains the empty one.
pub fn contains(hay: &[u8], needle: &[u8]) -> (r: bool)
    ensures
        r == occurs(hay@, needle@),
{
    if needle.len() > hay.len() {
        return false;
    }
    let n: usize = hay.len() - needle.len();
    let mut i: usize = 0;
    while i <= n
        invariant
            i <= n + 1,
            i > 0 ==> needle@.len() > 0,
            n + needle@.len() == hay@.len(),
            hay@.len() <= usize::MAX,
            forall|j: int| 0 <= j < i ==> !occurs_at(hay@, j, needle@),
        decreases n + 1 - i,
    {
        if at(hay, i, needle) {
            return true;
        }
        if needle.len() == 0 {
            assert(hay@.subrange(i as int, i as int) =~= needle@);
        }
        i = i + 1;
    }
    false
}

/// The empty string occurs in every string.
pub proof fn law_occurs_empty(s: Seq<u8>)
    ensures
        occurs(s, Seq::empty()),
{
    assert(s.subrange(0, 0) =~= Seq::empty());
    assert(occurs_at(s, 0, Seq::empty()));
}

/// A parameter that is 0 or 1 and may come first (`q`) or later (`a`).
pub open spec fn flag_set(req: Seq<u8>, q: Seq<u8>, a: Seq<u8>) -> bool {
    digit_after(req, q, 0, 1) == 1 || digit_after(req, a, 0, 1) == 1
}

/// A 0/1 query flag that may appear as the first (`q`) or a later (`a`) parameter.
pub fn flag(req: &[u8], q: &[u8], a: &[u8]) -> (v: usize)
    ensures
        v == if flag_set(req@, q@, a@) {
            1usize
        } else {
            0
        },
{
    if parse_digit(req, q, 0, 1) == 1 || parse_digit(req, a, 0, 1) == 1 {
        1
    } else {
        0
    }
}

/// What contains a string contains every part of it.
pub proof fn law_occurs_transitive(s: Seq<u8>, t: Seq<u8>, u: Seq<u8>)
    requires
        occurs(s, t),
        occurs(t, u),
    ensures
        occurs(s, u),
{
    let i = choose|i: int| occurs_at(s, i, t);
    let j = choose|j: int| occurs_at(t, j, u);
    assert forall|k: int| 0 <= k < u.len() implies s[i + j + k] == #[trigger] u[k] by {
        assert(s.subrange(i, i + t.len())[j + k] == t[j + k]);
        assert(t.subrange(j, j + u.len())[k] == u[k]);
    }
    assert(s.subrange(i + j, i + j + u.len()) =~= u);
    assert(occurs_at(s, i + j, u));
}

/// The bytes of `t` are those of `s` from index `i` on.
pub open spec fn reads(s: Seq<u8>, i: int, t: Seq<u8>) -> bool {
    &&& 0 <= i <= s.len() - t.len()
    &&& forall|k: int| 0 <= k < t.len() ==> #[trigger] t[k] == s[i + k]
}

proof fn lemma_reads(s: Seq<u8>, i: int, t: Seq<u8>)
    ensures
        occurs_at(s, i, t) <==> reads(s, i, t),
{
    if occurs_at(s, i, t) {
        assert forall|k: int| 0 <= k < t.len() implies #[trigger] t[k] == s[i + k] by {
            assert(s.subrange(i, i + t.len())[k] == s[i + k]);
        }
    }
    if reads(s, i, t) {
        assert(s.subrange(i, i + t.len()) =~= t);
    }
}

/// A string contains another one exactly when it has its bytes one behind the other somewhere, be it
/// at its beginning, at its end or anywhere between.
pub proof fn law_occurs(s: Seq<u8>, t: Seq<u8>)
    ensures
        occurs(s, t) <==> exists|i: int| reads(s, i, t),
{
    if occurs(s, t) {
        let i = choose|i: int| occurs_at(s, i, t);
        lemma_reads(s, i, t);
    }
    if exists|i: int| reads(s, i, t) {
        let i = choose|i: int| reads(s, i, t);
        lemma_reads(s, i, t);
    }
}

/// `key` stands in `req` at index `i`, and a decimal digit right behind it.
pub open spec fn reads_digit(req: Seq<u8>, key: Seq<u8>, i: int) -> bool {
    reads(req, i, key) && i + key.len() < req.len() && 48 <= req[i + key.len()] <= 57
}

proof fn lemma_reads_digit(req: Seq<u8>, key: Seq<u8>, i: int)
    ensures
        digit_at(req, key, i) <==> reads_digit(req, key, i),
{
    lemma_reads(req, i, key);
}

/// A parameter is the first digit that follows its key, wherever in the request that is, or the
/// largest value it may have if the digit is beyond it.
pub proof fn law_digit_found(req: Seq<u8>, key: Seq<u8>, default: usize, maxv: usize, i: int)
    requires
        reads_digit(req, key, i),
        forall|j: int| 0 <= j < i ==> !reads_digit(req, key, j),
    ensures
        digit_after(req, key, default, maxv) == if req[i + key.len()] - 48 <= maxv {
            req[i + key.len()] - 48
        } else {
            maxv as int
        },
{
    lemma_reads_digit(req, key, i);
    assert forall|j: int| 0 <= j < i implies !digit_at(req, key, j) by {
        lemma_reads_digit(req, key, j);
    }
    assert(first_digit_at(req, key, i));
    let f = choose|f: int| first_digit_at(req, key, f);
    assert(digit_at(req, key, f));
    assert(f == i);
}

/// Without a digit behind its key a parameter has its default.
pub proof fn law_digit_missing(req: Seq<u8>, key: Seq<u8>, default: usize, maxv: usize)
    requires
        forall|i: int| !reads_digit(req, key, i),
    ensures
        digit_after(req, key, default, maxv) == default,
{
    assert forall|i: int| !first_digit_at(req, key, i) by {
        lemma_reads_digit(req, key, i);
    }
}

/// The first digit that follows `key` is there, and is not 0.
pub open spec fn turned_on(req: Seq<u8>, key: Seq<u8>) -> bool {
    exists|i: int|
        {
            &&& #[trigger] reads_digit(req, key, i)
            &&& req[i + key.len()] != 48
            &&& forall|j: int| 0 <= j < i ==> !reads_digit(req, key, j)
        }
}

proof fn lemma_first_digit(req: Seq<u8>, key: Seq<u8>, i: int) -> (f: int)
    requires
        reads_digit(req, key, i),
    ensures
        0 <= f <= i,
        reads_digit(req, key, f),
        forall|j: int| 0 <= j < f ==> !reads_digit(req, key, j),
    decreases i,
{
    if exists|j: int| 0 <= j < i && reads_digit(req, key, j) {
        let j = choose|j: int| 0 <= j < i && reads_digit(req, key, j);
        lemma_first_digit(req, key, j)
    } else {
        i
    }
}

proof fn lemma_turned_on(req: Seq<u8>, key: Seq<u8>)
    ensures
        digit_after(req, key, 0, 1) == 1 <==> turned_on(req, key),
{
    if exists|i: int| reads_digit(req, key, i) {
        let i = choose|i: int| reads_digit(req, key, i);
        let f = lemma_first_digit(req, key, i);
        law_digit_found(req, key, 0, 1, f);
        if turned_on(req, key) {
            let g = choose|g: int|
                {
                    &&& #[trigger] reads_digit(req, key, g)
                    &&& req[g + key.len()] != 48
                    &&& forall|j: int| 0 <= j < g ==> !reads_digit(req, key, j)
                };
            assert(g == f);
        }
    } else {
        law_digit_missing(req, key, 0, 1);
    }
}

/// A flag is set exactly when the first digit behind one of its keys is not 0: either key alone will
/// do, and nothing else in the request matters.
pub proof fn law_flag(req: Seq<u8>, q: Seq<u8>, a: Seq<u8>)
    ensures
        flag_set(req, q, a) <==> turned_on(req, q) || turned_on(req, a),
{
    lemma_turned_on(req, q);
    lemma_turned_on(req, a);
}

/// What `contains` returns: whether the bytes of `needle` stand somewhere in `hay`.
pub proof fn law_contains(hay: &[u8], needle: &[u8], r: bool)
    requires
        call_ensures(contains, (hay, needle), r),
    ensures
        r <==> exists|i: int| reads(hay@, i, needle@),
{
    law_occurs(hay@, needle@);
}

/// What `parse_digit` returns: the first digit behind the key, wherever it stands, up to `maxv`; the
/// default if there is none.
pub proof fn law_parse_digit(
    req: &[u8],
    key: &[u8],
    default: usize,
    maxv: usize,
    v: usize,
    i: int,
)
    requires
        call_ensures(parse_digit, (req, key, default, maxv), v),
        forall|j: int| 0 <= j < i ==> !reads_digit(req@, key@, j),
    ensures
        reads_digit(req@, key@, i) ==> v == if req@[i + key@.len()] - 48 <= maxv {
            req@[i + key@.len()] - 48
        } else {
            maxv as int
        },
        i >= req@.len() ==> v == default,
{
    if reads_digit(req@, key@, i) {
        law_digit_found(req@, key@, default, maxv, i);
    }
    if i >= req@.len() {
        law_digit_missing(req@, key@, default, maxv);
    }
}

/// What `flag` returns: 1 if the first digit behind one of the keys is not 0, and else 0.
pub proof fn law_flag_value(req: &[u8], q: &[u8], a: &[u8], v: usize)
    requires
        call_ensures(flag, (req, q, a), v),
    ensures
        v <= 1,
        v == 1 <==> turned_on(req@, q@) || turned_on(req@, a@),
{
    law_flag(req@, q@, a@);
}

} // verus!
