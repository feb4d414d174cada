//! Character-level text utilities: lexicographic comparison of names and
//! paths, decimal rendering of scores, and extraction of a repository
//! name from a repository URL.

use vstd::prelude::*;

verus! {

/// Lexicographic order on character sequences by scalar value; a proper
/// prefix comes first.
pub open spec fn lex_le(a: Seq<char>, b: Seq<char>) -> bool
    decreases a.len(),
{
    if a.len() == 0 {
        true
    } else if b.len() == 0 {
        false
    } else if a[0] == b[0] {
        lex_le(a.drop_first(), b.drop_first())
    } else {
        (a[0] as u32) < (b[0] as u32)
    }
}

/// Comparing two sequences that agree on a prefix compares their tails.
proof fn lemma_lex_le_skip(a: Seq<char>, b: Seq<char>, i: int)
    requires
        0 <= i <= a.len(),
        i <= b.len(),
        forall|j: int| 0 <= j < i ==> a[j] == b[j],
    ensures
        lex_le(a, b) == lex_le(a.skip(i), b.skip(i)),
    decreases i,
{
    if i > 0 {
        assert(a.drop_first().skip(i - 1) =~= a.skip(i));
        assert(b.drop_first().skip(i - 1) =~= b.skip(i));
        assert(forall|j: int| 0 <= j < i - 1 ==> a.drop_first()[j] == b.drop_first()[j]);
        lemma_lex_le_skip(a.drop_first(), b.drop_first(), i - 1);
    } else {
        assert(a.skip(0) =~= a);
        assert(b.skip(0) =~= b);
    }
}

/// The order is total.
pub proof fn lemma_lex_le_total(a: Seq<char>, b: Seq<char>)
    ensures
        lex_le(a, b) || lex_le(b, a),
    decreases a.len(),
{
    if a.len() > 0 && b.len() > 0 {
        if a[0] == b[0] {
            lemma_lex_le_total(a.drop_first(), b.drop_first());
        } else {
            vstd::utf8::char_u32_cast(a[0], a[0] as u32);
            vstd::utf8::char_u32_cast(b[0], b[0] as u32);
        }
    }
}

/// The order is antisymmetric.
pub proof fn lemma_lex_le_antisym(a: Seq<char>, b: Seq<char>)
    requires
        lex_le(a, b),
        lex_le(b, a),
    ensures
        a == b,
    decreases a.len(),
{
    if a.len() == 0 {
        assert(b.len() == 0);
        assert(a =~= b);
    } else {
        assert(b.len() > 0);
        if a[0] == b[0] {
            assert(lex_le(a.drop_first(), b.drop_first()));
            assert(lex_le(b.drop_first(), a.drop_first()));
            lemma_lex_le_antisym(a.drop_first(), b.drop_first());
            assert(a.drop_first() == b.drop_first());
            assert(a.drop_first().len() == b.drop_first().len());
            assert(a.len() == b.len());
            assert forall|i: int| 0 <= i < a.len() implies a[i] == b[i] by {
                if i > 0 {
                    assert(a[i] == a.drop_first()[i - 1]);
                    assert(b[i] == b.drop_first()[i - 1]);
                }
            }
            assert(a =~= b);
        } else {
            vstd::utf8::char_u32_cast(a[0], a[0] as u32);
            vstd::utf8::char_u32_cast(b[0], b[0] as u32);
            assert(false);
        }
    }
}

/// The order is transitive.
pub proof fn lemma_lex_le_trans(a: Seq<char>, b: Seq<char>, c: Seq<char>)
    requires
        lex_le(a, b),
        lex_le(b, c),
    ensures
        lex_le(a, c),
    decreases a.len(),
{
    if a.len() > 0 && b.len() > 0 && c.len() > 0 {
        if a[0] == b[0] && b[0] == c[0] {
            lemma_lex_le_trans(a.drop_first(), b.drop_first(), c.drop_first());
        }
    }
}

/// Lexicographic comparison of two strings by character.
pub fn str_lex_le(a: &str, b: &str) -> (r: bool)
    ensures
        r == lex_le(a@, b@),
{
    let alen = a.unicode_len();
    let blen = b.unicode_len();
    let mut i: usize = 0;
    while i < alen && i < blen
        invariant
            0 <= i <= alen,
            i <= blen,
            alen == a@.len(),
            blen == b@.len(),
            forall|j: int| 0 <= j < i ==> a@[j] == b@[j],
        decreases alen - i,
    {
        let ca = a.get_char(i);
        let cb = b.get_char(i);
        if ca != cb {
            proof {
                lemma_lex_le_skip(a@, b@, i as int);
                assert(a@.skip(i as int)[0] == a@[i as int]);
                assert(b@.skip(i as int)[0] == b@[i as int]);
            }
            return (ca as u32) < (cb as u32);
        }
        i = i + 1;
    }
    proof {
        lemma_lex_le_skip(a@, b@, i as int);
    }
    alen <= blen
}

/// The character for one decimal digit.
pub open spec fn digit_char(d: nat) -> char {
    if d == 0 {
        '0'
    } else if d == 1 {
        '1'
    } else if d == 2 {
        '2'
    } else if d == 3 {
        '3'
    } else if d == 4 {
        '4'
    } else if d == 5 {
        '5'
    } else if d == 6 {
        '6'
    } else if d == 7 {
        '7'
    } else if d == 8 {
        '8'
    } else {
        '9'
    }
}

/// Decimal rendering of a natural number, most significant digit first,
/// without leading zeroes (zero itself is rendered `"0"`).
pub open spec fn dec_str(n: nat) -> Seq<char>
    decreases n,
{
    if n < 10 {
        seq![digit_char(n)]
    } else {
        dec_str(n / 10).push(digit_char(n % 10))
    }
}

/// The digits of a collected low-to-high digit list, rendered in display
/// order.
spec fn digits_chars(ds: Seq<u64>) -> Seq<char> {
    Seq::new(ds.len(), |i: int| digit_char(ds[ds.len() - 1 - i] as nat))
}

/// Renders a score in decimal.
pub fn u64_to_string(x: u64) -> (s: String)
    ensures
        s@ == dec_str(x as nat),
{
    let mut digits: Vec<u64> = Vec::new();
    let mut cur: u64 = x;
    while cur >= 10
        invariant
            dec_str(x as nat) == dec_str(cur as nat) + digits_chars(digits@),
            forall|j: int| 0 <= j < digits@.len() ==> digits@[j] < 10,
        decreases cur,
    {
        let d = cur % 10;
        cur = cur / 10;
        digits.push(d);
        proof {
            assert(digits_chars(digits@) =~= seq![digit_char(d as nat)] + digits_chars(
                digits@.drop_last(),
            ));
            assert(dec_str(x as nat) =~= dec_str(cur as nat) + digits_chars(digits@));
        }
    }
    digits.push(cur);
    proof {
        assert(digits_chars(digits@) =~= seq![digit_char(cur as nat)] + digits_chars(
            digits@.drop_last(),
        ));
        assert(dec_str(x as nat) =~= digits_chars(digits@));
    }
    let mut s = String::new();
    let mut k: usize = digits.len();
    proof {
        assert(s@ =~= digits_chars(digits@).take(0));
    }
    while k > 0
        invariant
            0 <= k <= digits@.len(),
            forall|j: int| 0 <= j < digits@.len() ==> digits@[j] < 10,
            dec_str(x as nat) == digits_chars(digits@),
            s@ == digits_chars(digits@).take(digits@.len() - k),
        decreases k,
    {
        k = k - 1;
        let lit: &str = match digits[k] {
            0 => "0",
            1 => "1",
            2 => "2",
            3 => "3",
            4 => "4",
            5 => "5",
            6 => "6",
            7 => "7",
            8 => "8",
            _ => "9",
        };
        proof {
            reveal_strlit("0");
            reveal_strlit("1");
            reveal_strlit("2");
            reveal_strlit("3");
            reveal_strlit("4");
            reveal_strlit("5");
            reveal_strlit("6");
            reveal_strlit("7");
            reveal_strlit("8");
            reveal_strlit("9");
            assert(lit@ =~= seq![digit_char(digits@[k as int] as nat)]);
        }
        s.append(lit);
        proof {
            assert(s@ =~= digits_chars(digits@).take(digits@.len() - k));
        }
    }
    proof {
        assert(digits_chars(digits@).take(digits@.len() as int) =~= digits_chars(digits@));
    }
    s
}

/// The URL with every trailing slash removed.
pub open spec fn trim_slashes(s: Seq<char>) -> Seq<char>
    decreases s.len(),
{
    if s.len() > 0 && s.last() == '/' {
        trim_slashes(s.drop_last())
    } else {
        s
    }
}

/// The suffix after the last slash (the whole sequence when there is
/// none).
pub open spec fn last_segment(s: Seq<char>) -> Seq<char>
    decreases s.len(),
{
    if s.len() == 0 {
        s
    } else if s.last() == '/' {
        Seq::empty()
    } else {
        last_segment(s.drop_last()).push(s.last())
    }
}

/// The repository name of a repository URL: the last path segment of the
/// slash-trimmed URL, with a `.git` suffix removed.
pub open spec fn repo_name_spec(url: Seq<char>) -> Seq<char> {
    let seg = last_segment(trim_slashes(url));
    if seg.len() >= 4 && seg.skip(seg.len() - 4) == seq!['.', 'g', 'i', 't'] {
        seg.take(seg.len() - 4)
    } else {
        seg
    }
}

/// Extracts the repository name from a repository URL.
#[verifier::rlimit(100)]
pub fn get_repo_name(url: &str) -> (r: String)
    ensures
        r@ == repo_name_spec(url@),
{
    let n = url.unicode_len();
    let mut e: usize = n;
    proof {
        assert(url@.take(n as int) =~= url@);
    }
    while e > 0 && url.get_char(e - 1) == '/'
        invariant
            0 <= e <= n,
            n == url@.len(),
            trim_slashes(url@) == trim_slashes(url@.take(e as int)),
        decreases e,
    {
        proof {
            assert(url@.take(e as int).drop_last() =~= url@.take(e as int - 1));
        }
        e = e - 1;
    }
    proof {
        assert(url@.take(n as int) =~= url@);
        assert(trim_slashes(url@.take(e as int)) == url@.take(e as int));
    }
    let mut s: usize = e;
    proof {
        assert(url@.subrange(e as int, e as int) =~= Seq::<char>::empty());
        assert(last_segment(url@.take(e as int)) + Seq::<char>::empty() =~= last_segment(
            url@.take(e as int),
        ));
    }
    while s > 0 && url.get_char(s - 1) != '/'
        invariant
            0 <= s <= e <= n,
            n == url@.len(),
            trim_slashes(url@) == url@.take(e as int),
            last_segment(url@.take(e as int)) == last_segment(url@.take(s as int)) + url@.subrange(
                s as int,
                e as int,
            ),
        decreases s,
    {
        proof {
            assert(url@.take(s as int).drop_last() =~= url@.take(s as int - 1));
            assert(last_segment(url@.take(s as int)) == last_segment(url@.take(s as int - 1)).push(
                url@[s as int - 1],
            ));
            assert(last_segment(url@.take(s as int - 1)).push(url@[s as int - 1]) + url@.subrange(
                s as int,
                e as int,
            ) =~= last_segment(url@.take(s as int - 1)) + url@.subrange(s as int - 1, e as int));
        }
        s = s - 1;
    }
    proof {
        if s == 0 {
            assert(url@.take(0) =~= Seq::<char>::empty());
            assert(last_segment(url@.take(e as int)) =~= url@.subrange(s as int, e as int));
        } else {
            assert(last_segment(url@.take(s as int)) =~= Seq::<char>::empty());
            assert(last_segment(url@.take(e as int)) =~= url@.subrange(s as int, e as int));
        }
    }
    let seg = url.substring_char(s, e);
    let seg_len = e - s;
    proof {
        assert(seg@ == last_segment(trim_slashes(url@)));
        assert(seg@.len() == seg_len);
    }
    if seg_len >= 4 && seg.get_char(seg_len - 4) == '.' && seg.get_char(seg_len - 3) == 'g'
        && seg.get_char(seg_len - 2) == 'i' && seg.get_char(seg_len - 1) == 't' {
        proof {
            assert(seg@.skip(seg_len as int - 4) =~= seq!['.', 'g', 'i', 't']);
        }
        let name = seg.substring_char(0, seg_len - 4);
        proof {
            assert(name@ =~= seg@.take(seg_len as int - 4));
        }
        name.to_owned()
    } else {
        proof {
            if seg_len >= 4 {
                assert(seg@.skip(seg_len as int - 4).len() == 4);
                if seg@.skip(seg_len as int - 4) == seq!['.', 'g', 'i', 't'] {
                    assert(seg@.skip(seg_len as int - 4)[0] == seg@[seg_len as int - 4]);
                    assert(seg@.skip(seg_len as int - 4)[1] == seg@[seg_len as int - 3]);
                    assert(seg@.skip(seg_len as int - 4)[2] == seg@[seg_len as int - 2]);
                    assert(seg@.skip(seg_len as int - 4)[3] == seg@[seg_len as int - 1]);
                    assert(seq!['.', 'g', 'i', 't'][0] == '.');
                    assert(seq!['.', 'g', 'i', 't'][1] == 'g');
                    assert(seq!['.', 'g', 'i', 't'][2] == 'i');
                    assert(seq!['.', 'g', 'i', 't'][3] == 't');
                    assert(false);
                }
            }
        }
        seg.to_owned()
    }
}

} // verus!
