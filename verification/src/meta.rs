//! The metadata codec.
//!
//! A capture is persisted beside its data as one serialized object with
//! the fields `name`, `created`, `description` and a list field (`files`
//! for snapshots, `components` for containers).  The writer emits one
//! canonical form, proven to parse back to exactly what it serialized.
//! The reader also takes conforming text a foreign writer could have
//! produced — fields in any order, unknown fields, whitespace — but a
//! missing field, or an escape in a known field's value, is a
//! `ParseFailure`: a capture whose metadata does not parse is treated as
//! invalid.

use vstd::prelude::*;
use crate::EngineError;
use crate::text::{plain, plain_char};

verus! {

/// Plainness of every element.
pub open spec fn all_plain(its: Seq<Seq<char>>) -> bool {
    forall|i: int| 0 <= i < its.len() ==> plain(#[trigger] its[i])
}

/// The items of a list field, each quoted, separated by commas.
pub open spec fn quoted_list(its: Seq<Seq<char>>) -> Seq<char>
    decreases its.len(),
{
    if its.len() == 0 {
        Seq::empty()
    } else {
        let head = seq!['"'] + its[0] + seq!['"'];
        if its.len() == 1 {
            head
        } else {
            head + seq![','] + quoted_list(its.drop_first())
        }
    }
}

/// The canonical metadata text for the given field values.
pub open spec fn spec_encode(
    name: Seq<char>,
    created: Seq<char>,
    description: Seq<char>,
    key: Seq<char>,
    its: Seq<Seq<char>>,
) -> Seq<char> {
    "{\"name\":\""@ + name + "\",\"created\":\""@ + created + "\",\"description\":\""@
        + description + "\",\""@ + key + "\":["@ + quoted_list(its) + "]}"@
}

/// The field values `(n, c, d, its)` that `s` is the canonical metadata
/// text of, under the list key `key`.
pub open spec fn meta_image(
    s: Seq<char>,
    key: Seq<char>,
    n: Seq<char>,
    c: Seq<char>,
    d: Seq<char>,
    its: Seq<Seq<char>>,
) -> bool {
    plain(n) && plain(c) && plain(d) && all_plain(its) && s == spec_encode(n, c, d, key, its)
}

pub proof fn lemma_quoted_list_push(its: Seq<Seq<char>>, x: Seq<char>)
    ensures
        quoted_list(its.push(x)) == if its.len() == 0 {
            seq!['"'] + x + seq!['"']
        } else {
            quoted_list(its) + seq![','] + seq!['"'] + x + seq!['"']
        },
    decreases its.len(),
{
    reveal_with_fuel(quoted_list, 3);
    if its.len() == 0 {
        assert(its.push(x)[0] == x);
    } else {
        assert(its.push(x)[0] == its[0]);
        assert(its.push(x).drop_first() =~= its.drop_first().push(x));
        lemma_quoted_list_push(its.drop_first(), x);
        if its.len() == 1 {
            assert(its.drop_first().len() == 0);
            assert(quoted_list(its.push(x)) =~= quoted_list(its) + seq![','] + seq!['"'] + x
                + seq!['"']);
        } else {
            assert(quoted_list(its.push(x)) =~= quoted_list(its) + seq![','] + seq!['"'] + x
                + seq!['"']);
        }
    }
}

/// The metadata record's plain field values.
pub struct MetaParts {
    pub name: String,
    pub created: String,
    pub description: String,
    pub items: Vec<String>,
}

/// Serialize metadata to its canonical text.
pub fn encode_metadata(
    name: &String,
    created: &String,
    description: &String,
    key: &String,
    items: &Vec<String>,
) -> (r: String)
    ensures
        r@ == spec_encode(name@, created@, description@, key@, items.deep_view()),
{
    let mut s = String::from_str("{\"name\":\"");
    s.append(name.as_str());
    s.append("\",\"created\":\"");
    s.append(created.as_str());
    s.append("\",\"description\":\"");
    s.append(description.as_str());
    s.append("\",\"");
    s.append(key.as_str());
    s.append("\":[");
    let ghost pre = s@;
    let ghost dv = items.deep_view();
    let mut i: usize = 0;
    while i < items.len()
        invariant
            dv == items.deep_view(),
            dv.len() == items@.len(),
            i <= items@.len(),
            s@ == pre + quoted_list(dv.take(i as int)),
        decreases items@.len() - i,
    {
        proof {
            assert(dv.take(i + 1) =~= dv.take(i as int).push(dv[i as int]));
            lemma_quoted_list_push(dv.take(i as int), dv[i as int]);
            assert(dv[i as int] == items@[i as int]@);
        }
        if i > 0 {
            s.append(",");
        }
        s.append("\"");
        s.append(items[i].as_str());
        s.append("\"");
        proof {
            reveal_strlit(",");
            reveal_strlit("\"");
            assert(","@ =~= seq![',']);
            assert("\""@ =~= seq!['"']);
            if i == 0 {
                assert(dv.take(0) =~= Seq::<Seq<char>>::empty());
                assert(s@ =~= pre + quoted_list(dv.take(i + 1)));
            } else {
                assert(dv.take(i as int).len() > 0);
                assert(s@ =~= pre + quoted_list(dv.take(i + 1)));
            }
        }
        i = i + 1;
    }
    s.append("]}");
    proof {
        assert(dv.take(dv.len() as int) =~= dv);
        assert(s@ =~= spec_encode(name@, created@, description@, key@, dv));
    }
    s
}

/// A quote at `j`, with only plain characters from `i` up to it.
pub open spec fn plain_quote_at(s: Seq<char>, i: int, j: int) -> bool {
    i <= j < s.len() && s[j] == '"' && (forall|k: int| i <= k < j ==> plain_char(#[trigger] s[k]))
}

fn expect_lit(s: &str, i: usize, lit: &str) -> (r: Option<usize>)
    requires
        i <= s@.len(),
    ensures
        match r {
            Some(j) => j == i + lit@.len() && j <= s@.len() && s@.subrange(i as int, j as int)
                == lit@,
            None => !(i + lit@.len() <= s@.len() && s@.subrange(i as int, i + lit@.len() as int)
                =~= lit@),
        },
{
    let n = s.unicode_len();
    let ln = lit.unicode_len();
    if ln > n - i {
        return None;
    }
    let mut k: usize = 0;
    while k < ln
        invariant
            n == s@.len(),
            ln == lit@.len(),
            i + ln <= n,
            k <= ln,
            forall|m: int| 0 <= m < k ==> s@[i + m] == lit@[m],
        decreases ln - k,
    {
        if s.get_char(i + k) != lit.get_char(k) {
            proof {
                assert(s@.subrange(i as int, i + ln as int)[k as int] == s@[i + k]);
            }
            return None;
        }
        k = k + 1;
    }
    proof {
        assert(s@.subrange(i as int, i + ln as int) =~= lit@);
    }
    Some(i + ln)
}

fn read_plain(s: &str, i: usize) -> (r: Option<(String, usize)>)
    requires
        i <= s@.len(),
    ensures
        match r {
            Some(p) => plain_quote_at(s@, i as int, p.1 as int) && p.0@ == s@.subrange(
                i as int,
                p.1 as int,
            ) && plain(p.0@) && i <= p.1 < s@.len(),
            None => forall|j: int| !plain_quote_at(s@, i as int, j),
        },
{
    let n = s.unicode_len();
    let mut k: usize = i;
    while k < n
        invariant
            n == s@.len(),
            i <= k <= n,
            forall|m: int| i <= m < k ==> plain_char(#[trigger] s@[m]),
        decreases n - k,
    {
        let c = s.get_char(k);
        if c == '"' {
            let t = String::from_str(s.substring_char(i, k));
            return Some((t, k));
        }
        if c == '\\' {
            proof {
                assert forall|j: int| !plain_quote_at(s@, i as int, j) by {
                    if plain_quote_at(s@, i as int, j) {
                        if j <= k {
                            assert(s@[j] == '"');
                            assert(j < k ==> plain_char(s@[j]));
                            assert(j == k ==> s@[j] == '\\');
                        } else {
                            assert(plain_char(s@[k as int]));
                        }
                    }
                }
            }
            return None;
        }
        k = k + 1;
    }
    proof {
        assert forall|j: int| !plain_quote_at(s@, i as int, j) by {
            if plain_quote_at(s@, i as int, j) {
                assert(s@[j] == '"');
                assert(!plain_char(s@[j]));
            }
        }
    }
    None
}

/// Peel one known part off the front of a decomposed remainder.
proof fn lemma_prefix_peel(s: Seq<char>, i: int, a: Seq<char>, rest: Seq<char>)
    requires
        0 <= i,
        i + a.len() + rest.len() == s.len(),
        s.subrange(i, s.len() as int) == a + rest,
    ensures
        s.subrange(i, i + a.len()) == a,
        s.subrange(i + a.len(), s.len() as int) == rest,
{
    assert(s.subrange(i, i + a.len()) =~= a) by {
        assert forall|k: int| 0 <= k < a.len() implies s.subrange(i, i + a.len())[k] == a[k] by {
            assert(s.subrange(i, s.len() as int)[k] == (a + rest)[k]);
        }
    }
    assert(s.subrange(i + a.len(), s.len() as int) =~= rest) by {
        assert forall|k: int| 0 <= k < rest.len() implies s.subrange(
            i + a.len(),
            s.len() as int,
        )[k] == rest[k] by {
            assert(s.subrange(i + a.len(), s.len() as int)[k] == s[i + a.len() + k]);
            assert(s.subrange(i, s.len() as int)[a.len() + k] == s[i + a.len() + k]);
            assert((a + rest)[a.len() + k] == rest[k]);
        }
    }
}


/// Extend a known prefix decomposition by one more piece.
proof fn lemma_prefix_extend(s: Seq<char>, p: int, q: int, b: Seq<char>, piece: Seq<char>)
    requires
        0 <= p <= q <= s.len(),
        p == b.len(),
        q - p == piece.len(),
        s.subrange(0, p) == b,
        s.subrange(p, q) == piece,
    ensures
        s.subrange(0, q) == b + piece,
{
    assert(s.subrange(0, q) =~= b + piece) by {
        assert forall|k: int| 0 <= k < q implies s.subrange(0, q)[k] == (b + piece)[k] by {
            if k < p {
                assert(s.subrange(0, p)[k] == s[k]);
            } else {
                assert(s.subrange(p, q)[k - p] == s[k]);
            }
        }
    }
}

/// `its` is what remains to be read of a list whose text runs to the end
/// of `s` from position `i`: the quoted items, then the closing bracket
/// and brace.
pub open spec fn list_suffix_at(s: Seq<char>, i: int, its: Seq<Seq<char>>) -> bool {
    &&& all_plain(its)
    &&& 0 <= i <= s.len()
    &&& s.subrange(i, s.len() as int) == quoted_list(its) + "]}"@
}


proof fn lemma_plain_quote_unique(s: Seq<char>, i: int, j1: int, j2: int)
    requires
        plain_quote_at(s, i, j1),
        plain_quote_at(s, i, j2),
    ensures
        j1 == j2,
{
    if j1 < j2 {
        assert(plain_char(s[j1]));
    }
    if j2 < j1 {
        assert(plain_char(s[j2]));
    }
}

/// What the text of a nonempty remaining list looks like from `i`: an
/// opening quote, the first item's plain characters, a closing quote,
/// then either the next item after a comma or the closing bracket and
/// brace at the very end.
proof fn lemma_list_suffix_unfold(s: Seq<char>, i: int, its: Seq<Seq<char>>)
    requires
        list_suffix_at(s, i, its),
        its.len() > 0,
    ensures
        i + its[0].len() + 2 < s.len(),
        s[i] == '"',
        plain_quote_at(s, i + 1, i + 1 + its[0].len()),
        forall|m: int| 0 <= m < its[0].len() ==> s[i + 1 + m] == its[0][m],
        its.len() == 1 ==> s[i + its[0].len() + 2] == ']' && i + its[0].len() + 4 == s.len()
            && s[i + its[0].len() + 3] == '}',
        its.len() > 1 ==> s[i + its[0].len() + 2] == ',' && list_suffix_at(
            s,
            i + its[0].len() + 3,
            its.drop_first(),
        ),
{
    reveal_strlit("]}");
    assert("]}"@.len() == 2 && "]}"@[0] == ']' && "]}"@[1] == '}');
    let x = its[0];
    let rest2: Seq<char> = if its.len() == 1 {
        "]}"@
    } else {
        seq![','] + quoted_list(its.drop_first()) + "]}"@
    };
    let rhs = quoted_list(its) + "]}"@;
    assert(rhs =~= seq!['"'] + x + seq!['"'] + rest2);
    let n = s.len() as int;
    assert(s.subrange(i, n).len() == rhs.len());
    assert forall|m: int| 0 <= m < rhs.len() implies s[i + m] == rhs[m] by {
        assert(s.subrange(i, n)[m] == s[i + m]);
    }
    assert(rhs[0] == '"');
    assert(s[i] == '"');
    assert forall|k: int| i + 1 <= k < i + 1 + x.len() implies plain_char(s[k]) && s[k] == x[k
        - i - 1] by {
        assert(rhs[k - i] == x[k - i - 1]);
        assert(plain(x));
    }
    assert forall|m: int| 0 <= m < x.len() implies s[i + 1 + m] == x[m] by {
        assert(s[i + 1 + m] == x[i + 1 + m - i - 1]);
    }
    assert(rhs[1 + x.len() as int] == '"');
    assert(s[i + 1 + x.len()] == '"');
    assert(plain_quote_at(s, i + 1, i + 1 + x.len()));
    assert(rhs[2 + x.len() as int] == rest2[0]);
    if its.len() == 1 {
        assert(s[i + x.len() + 2] == ']');
        assert(rhs[3 + x.len() as int] == rest2[1]);
        assert(s[i + x.len() + 3] == '}');
    } else {
        assert(s[i + x.len() + 2] == ',');
        let d = its.drop_first();
        assert(quoted_list(d).len() + 2 == rest2.len() - 1);
        assert(s.subrange(i + x.len() + 3, n) =~= quoted_list(d) + "]}"@) by {
            assert forall|m: int| 0 <= m < quoted_list(d).len() + 2 implies s.subrange(
                i + x.len() + 3,
                n,
            )[m] == (quoted_list(d) + "]}"@)[m] by {
                assert(s[i + x.len() + 3 + m] == rhs[x.len() + 3 + m]);
                assert(rhs[x.len() + 3 + m] == rest2[x.len() + 3 + m - (x.len() + 2)]);
                assert(rest2[1 + m] == (quoted_list(d) + "]}"@)[m]);
            }
        }
        assert(all_plain(d)) by {
            assert forall|k: int| 0 <= k < d.len() implies plain(#[trigger] d[k]) by {
                assert(its[k + 1] == d[k]);
                assert(plain(its[k + 1]));
            }
        }
    }
}


fn parse_list(s: &str, i0: usize) -> (r: Option<(Vec<String>, usize)>)
    requires
        i0 <= s@.len(),
    ensures
        match r {
            Some(p) => {
                &&& i0 < p.1 <= s@.len()
                &&& all_plain(p.0.deep_view())
                &&& s@.subrange(i0 as int, p.1 as int) == quoted_list(p.0.deep_view())
                    + seq![']']
                &&& forall|its: Seq<Seq<char>>|
                    #[trigger] list_suffix_at(s@, i0 as int, its) ==> p.0.deep_view() == its
                        && p.1 + 1 == s@.len()
            },
            None => forall|its: Seq<Seq<char>>| !list_suffix_at(s@, i0 as int, its),
        },
{
    let n = s.unicode_len();
    let mut out: Vec<String> = Vec::new();
    if i0 < n && s.get_char(i0) == ']' {
        proof {
            assert(s@.subrange(i0 as int, i0 + 1 as int) =~= quoted_list(
                Seq::<Seq<char>>::empty(),
            ) + seq![']']);
            assert forall|its: Seq<Seq<char>>|
                #[trigger] list_suffix_at(s@, i0 as int, its) implies out.deep_view() == its
                && i0 + 2 == s@.len() by {
                if its.len() > 0 {
                    lemma_list_suffix_unfold(s@, i0 as int, its);
                } else {
                    reveal_strlit("]}");
                    assert(quoted_list(its) + "]}"@ =~= "]}"@);
                    assert(s@.subrange(i0 as int, s@.len() as int).len() == 2);
                }
                assert(out.deep_view() =~= its);
            }
        }
        return Some((out, i0 + 1));
    }
    let mut i = i0;
    let mut done = false;
    proof {
        assert forall|its: Seq<Seq<char>>|
            #[trigger] list_suffix_at(s@, i0 as int, its) implies out@.len() <= its.len()
            && out.deep_view() == its.take(out@.len() as int) && list_suffix_at(
            s@,
            i as int,
            its.skip(out@.len() as int),
        ) && (out@.len() > 0 ==> out@.len() < its.len()) by {
            assert(its.skip(0) =~= its);
            assert(out.deep_view() =~= its.take(0));
        }
    }
    while !done
        invariant
            n == s@.len(),
            i0 <= i <= n,
            !(i0 < n && s@[i0 as int] == ']'),
            all_plain(out.deep_view()),
            !done ==> (out@.len() == 0 && i == i0) || (out@.len() > 0 && s@.subrange(
                i0 as int,
                i as int,
            ) == quoted_list(out.deep_view()) + seq![',']),
            !done ==> forall|its: Seq<Seq<char>>|
                #[trigger] list_suffix_at(s@, i0 as int, its) ==> out@.len() <= its.len()
                    && out.deep_view() == its.take(out@.len() as int) && list_suffix_at(
                    s@,
                    i as int,
                    its.skip(out@.len() as int),
                ) && (out@.len() > 0 ==> out@.len() < its.len()),
            done ==> i0 < i && s@.subrange(i0 as int, i as int) == quoted_list(out.deep_view())
                + seq![']'],
            done ==> forall|its: Seq<Seq<char>>|
                #[trigger] list_suffix_at(s@, i0 as int, its) ==> out.deep_view() == its && i + 1
                    == s@.len(),
        decreases n - i,
    {
        let ghost t = out@.len() as int;
        if i >= n {
            proof {
                assert forall|its: Seq<Seq<char>>| !list_suffix_at(s@, i0 as int, its) by {
                    if list_suffix_at(s@, i0 as int, its) {
                        let rest = its.skip(t);
                        assert(list_suffix_at(s@, i as int, rest));
                        reveal_strlit("]}");
                        assert((quoted_list(rest) + "]}"@).len() >= 2);
                        assert(s@.subrange(i as int, n as int).len() >= 2);
                    }
                }
            }
            return None;
        }
        let c0 = s.get_char(i);
        if c0 != '"' {
            proof {
                assert forall|its: Seq<Seq<char>>| !list_suffix_at(s@, i0 as int, its) by {
                    if list_suffix_at(s@, i0 as int, its) {
                        let rest = its.skip(t);
                        assert(list_suffix_at(s@, i as int, rest));
                        if rest.len() > 0 {
                            lemma_list_suffix_unfold(s@, i as int, rest);
                        } else {
                            reveal_strlit("]}");
                            assert(quoted_list(rest) + "]}"@ =~= "]}"@);
                            assert(t == its.len());
                            assert(t == 0);
                            assert(s@.subrange(i as int, n as int)[0] == s@[i as int]);
                            assert(s@[i as int] == ']');
                        }
                    }
                }
            }
            return None;
        }
        let (item, j) = match read_plain(s, i + 1) {
            Some(p) => p,
            None => {
                proof {
                    assert forall|its: Seq<Seq<char>>| !list_suffix_at(s@, i0 as int, its) by {
                        if list_suffix_at(s@, i0 as int, its) {
                            let rest = its.skip(t);
                            assert(list_suffix_at(s@, i as int, rest));
                            if rest.len() > 0 {
                                lemma_list_suffix_unfold(s@, i as int, rest);
                            } else {
                                reveal_strlit("]}");
                                assert(quoted_list(rest) + "]}"@ =~= "]}"@);
                                assert(t == its.len());
                                assert(t == 0);
                                assert(s@.subrange(i as int, n as int)[0] == s@[i as int]);
                                assert(s@[i as int] == ']');
                            }
                        }
                    }
                }
                return None;
            },
        };
        let ghost out0 = out.deep_view();
        out.push(item);
        proof {
            assert(out.deep_view() =~= out0.push(item@));
        }
        let i2 = j + 1;
        if i2 >= n {
            proof {
                assert forall|its: Seq<Seq<char>>| !list_suffix_at(s@, i0 as int, its) by {
                    if list_suffix_at(s@, i0 as int, its) {
                        let rest = its.skip(t);
                        assert(list_suffix_at(s@, i as int, rest));
                        if rest.len() > 0 {
                            lemma_list_suffix_unfold(s@, i as int, rest);
                            lemma_plain_quote_unique(
                                s@,
                                i + 1,
                                j as int,
                                i + 1 + rest[0].len(),
                            );
                            assert(i + rest[0].len() + 2 < n);
                        } else {
                            reveal_strlit("]}");
                            assert(quoted_list(rest) + "]}"@ =~= "]}"@);
                            assert(s@.subrange(i as int, n as int)[0] == s@[i as int]);
                            assert(t < its.len());
                        }
                    }
                }
            }
            return None;
        }
        let c = s.get_char(i2);
        proof {
            assert forall|its: Seq<Seq<char>>|
                #[trigger] list_suffix_at(s@, i0 as int, its) implies {
                let rest = its.skip(t);
                &&& rest.len() > 0
                &&& item@ == rest[0]
                &&& i2 == i + rest[0].len() + 2
                &&& out.deep_view() == its.take(t + 1)
                &&& (rest.len() == 1 ==> s@[i2 as int] == ']' && i2 + 2 == n)
                &&& (rest.len() > 1 ==> s@[i2 as int] == ',' && list_suffix_at(
                    s@,
                    i2 + 1,
                    its.skip(t + 1),
                ))
            } by {
                let rest = its.skip(t);
                assert(list_suffix_at(s@, i as int, rest));
                if rest.len() == 0 {
                    reveal_strlit("]}");
                    assert(quoted_list(rest) + "]}"@ =~= "]}"@);
                    assert(t == its.len());
                    assert(t == 0);
                    assert(s@.subrange(i as int, n as int)[0] == s@[i as int]);
                    assert(s@[i as int] == ']');
                } else {
                    lemma_list_suffix_unfold(s@, i as int, rest);
                    lemma_plain_quote_unique(s@, i + 1, j as int, i + 1 + rest[0].len());
                    assert(item@ == s@.subrange(i + 1, j as int));
                    assert(item@ =~= rest[0]) by {
                        assert forall|m: int| 0 <= m < rest[0].len() implies item@[m]
                            == rest[0][m] by {
                            assert(s@.subrange(i + 1, j as int)[m] == s@[i + 1 + m]);
                            assert(plain_quote_at(s@, i + 1, i + 1 + rest[0].len()));
                        }
                    }
                    assert(out.deep_view() =~= its.take(t + 1)) by {
                        assert(its[t] == rest[0]);
                    }
                    if rest.len() > 1 {
                        assert(its.skip(t + 1) =~= rest.drop_first());
                    }
                }
            }
        }
        if c == ',' {
            proof {
                reveal_strlit(",");
                if t == 0 {
                    assert(s@.subrange(i0 as int, i2 + 1) =~= quoted_list(out.deep_view())
                        + seq![',']) by {
                        reveal_with_fuel(quoted_list, 2);
                        assert(plain_quote_at(s@, i + 1, j as int));
                        assert(s@[i as int] == '"');
                        assert(s@[j as int] == '"');
                    }
                } else {
                    assert(s@.subrange(i0 as int, i2 + 1) =~= quoted_list(out.deep_view())
                        + seq![',']) by {
                        lemma_quoted_list_push(out0, item@);
                        assert(s@.subrange(i0 as int, i as int) == quoted_list(out0)
                            + seq![',']);
                        assert(plain_quote_at(s@, i + 1, j as int));
                        assert(s@[i as int] == '"');
                        assert(s@[j as int] == '"');
                        assert forall|m: int| 0 <= m < i2 + 1 - i0 implies s@.subrange(
                            i0 as int,
                            i2 + 1,
                        )[m] == (quoted_list(out.deep_view()) + seq![','])[m] by {
                            if m < i - i0 {
                                assert(s@.subrange(i0 as int, i as int)[m] == s@[i0 + m]);
                            }
                        }
                    }
                }
            }
            i = i2 + 1;
        } else if c == ']' {
            proof {
                if t == 0 {
                    assert(s@.subrange(i0 as int, i2 + 1) =~= quoted_list(out.deep_view())
                        + seq![']']) by {
                        reveal_with_fuel(quoted_list, 2);
                        assert(plain_quote_at(s@, i + 1, j as int));
                        assert(s@[i as int] == '"');
                        assert(s@[j as int] == '"');
                    }
                } else {
                    assert(s@.subrange(i0 as int, i2 + 1) =~= quoted_list(out.deep_view())
                        + seq![']']) by {
                        lemma_quoted_list_push(out0, item@);
                        assert(s@.subrange(i0 as int, i as int) == quoted_list(out0)
                            + seq![',']);
                        assert(plain_quote_at(s@, i + 1, j as int));
                        assert(s@[i as int] == '"');
                        assert(s@[j as int] == '"');
                        assert forall|m: int| 0 <= m < i2 + 1 - i0 implies s@.subrange(
                            i0 as int,
                            i2 + 1,
                        )[m] == (quoted_list(out.deep_view()) + seq![']'])[m] by {
                            if m < i - i0 {
                                assert(s@.subrange(i0 as int, i as int)[m] == s@[i0 + m]);
                            }
                        }
                    }
                }
                assert forall|its: Seq<Seq<char>>|
                    #[trigger] list_suffix_at(s@, i0 as int, its) implies out.deep_view() == its
                    && i2 + 1 + 1 == s@.len() by {
                    let rest = its.skip(t);
                    assert(rest.len() > 0);
                    if rest.len() > 1 {
                        assert(s@[i2 as int] == ',');
                    }
                    assert(rest.len() == 1);
                    assert(out.deep_view() == its.take(t + 1));
                    assert(its.take(t + 1) =~= its);
                }
            }
            i = i2 + 1;
            done = true;
        } else {
            proof {
                assert forall|its: Seq<Seq<char>>| !list_suffix_at(s@, i0 as int, its) by {
                    if list_suffix_at(s@, i0 as int, its) {
                        let rest = its.skip(t);
                        assert(rest.len() > 0);
                        if rest.len() == 1 {
                            assert(s@[i2 as int] == ']');
                        } else {
                            assert(s@[i2 as int] == ',');
                        }
                    }
                }
            }
            return None;
        }
    }
    Some((out, i))
}


/// The text that follows the list key's opening bracket.
pub open spec fn rest_list(its: Seq<Seq<char>>) -> Seq<char> {
    quoted_list(its) + "]}"@
}

/// The text from the list key on.
pub open spec fn rest_key(key: Seq<char>, its: Seq<Seq<char>>) -> Seq<char> {
    key + ("\":["@ + rest_list(its))
}

/// The text from the description value on.
pub open spec fn rest_descr(d: Seq<char>, key: Seq<char>, its: Seq<Seq<char>>) -> Seq<char> {
    d + ("\",\""@ + rest_key(key, its))
}

/// The text from the created value on.
pub open spec fn rest_created(
    c: Seq<char>,
    d: Seq<char>,
    key: Seq<char>,
    its: Seq<Seq<char>>,
) -> Seq<char> {
    c + ("\",\"description\":\""@ + rest_descr(d, key, its))
}

/// The text from the name value on.
pub open spec fn rest_name(
    n: Seq<char>,
    c: Seq<char>,
    d: Seq<char>,
    key: Seq<char>,
    its: Seq<Seq<char>>,
) -> Seq<char> {
    n + ("\",\"created\":\""@ + rest_created(c, d, key, its))
}

/// Parse exactly canonical metadata text under the list key `key`.
///
/// The parse is exact: the result, when `Ok`, holds plain field values
/// whose canonical serialization is `text` itself, and text that is the
/// canonical serialization of plain field values always parses to them.
/// Anything else — a missing field, a reordered field, an escape, stray
/// whitespace — is rejected with `ParseFailure`.
#[verifier::rlimit(100)]
#[verifier::spinoff_prover]
pub fn parse_metadata_exact(text: &str, key: &str) -> (r: Result<MetaParts, EngineError>)
    ensures
        forall|n: Seq<char>, c: Seq<char>, d: Seq<char>, its: Seq<Seq<char>>|
            #[trigger] meta_image(text@, key@, n, c, d, its) ==> (r matches Ok(p) && p.name@ == n
                && p.created@ == c && p.description@ == d && p.items.deep_view() == its),
        r matches Err(e) ==> e matches EngineError::ParseFailure,
        r matches Ok(p) ==> plain(p.name@) && plain(p.created@) && plain(p.description@)
            && all_plain(p.items.deep_view()) && text@ == spec_encode(
            p.name@,
            p.created@,
            p.description@,
            key@,
            p.items.deep_view(),
        ),
{
    let n = text.unicode_len();
    let l1 = "{\"name\":\"";
    let l2 = "\",\"created\":\"";
    let l3 = "\",\"description\":\"";
    let l4 = "\",\"";
    let l5 = "\":[";
    proof {
        assert forall|nm: Seq<char>, c: Seq<char>, d: Seq<char>, its: Seq<Seq<char>>|
            #[trigger] meta_image(text@, key@, nm, c, d, its) implies text@.subrange(
            0,
            text@.len() as int,
        ) == l1@ + rest_name(nm, c, d, key@, its) by {
            assert(text@ == spec_encode(nm, c, d, key@, its));
            assert(text@ =~= l1@ + rest_name(nm, c, d, key@, its));
            assert(text@.subrange(0, text@.len() as int) =~= text@);
        }
    }
    let i1 = match expect_lit(text, 0, l1) {
        Some(j) => j,
        None => {
            proof {
                assert forall|nm: Seq<char>, c: Seq<char>, d: Seq<char>, its: Seq<Seq<char>>|
                    !meta_image(text@, key@, nm, c, d, its) by {
                    if meta_image(text@, key@, nm, c, d, its) {
                        lemma_prefix_peel(text@, 0, l1@, rest_name(nm, c, d, key@, its));
                    }
                }
            }
            return Err(EngineError::ParseFailure);
        },
    };
    proof {
        assert forall|nm: Seq<char>, c: Seq<char>, d: Seq<char>, its: Seq<Seq<char>>|
            #[trigger] meta_image(text@, key@, nm, c, d, its) implies text@.subrange(
            i1 as int,
            text@.len() as int,
        ) == rest_name(nm, c, d, key@, its) && plain_quote_at(text@, i1 as int, i1
            + nm.len()) by {
            lemma_prefix_peel(text@, 0, l1@, rest_name(nm, c, d, key@, its));
            reveal_strlit("\",\"created\":\"");
            let tail = l2@ + rest_created(c, d, key@, its);
            lemma_prefix_peel(text@, i1 as int, nm, tail);
            assert(tail[0] == '"');
            assert forall|k: int| i1 <= k < i1 + nm.len() implies plain_char(text@[k]) by {
                assert(text@.subrange(i1 as int, i1 + nm.len() as int)[k - i1] == text@[k]);
                assert(nm[k - i1] == text@[k]);
            }
            assert(text@.subrange(i1 + nm.len(), text@.len() as int)[0] == text@[i1
                + nm.len()]);
        }
    }
    let (name, j1) = match read_plain(text, i1) {
        Some(p) => p,
        None => {
            proof {
                assert forall|nm: Seq<char>, c: Seq<char>, d: Seq<char>, its: Seq<Seq<char>>|
                    !meta_image(text@, key@, nm, c, d, its) by {
                    if meta_image(text@, key@, nm, c, d, its) {
                        assert(plain_quote_at(text@, i1 as int, i1 + nm.len()));
                    }
                }
            }
            return Err(EngineError::ParseFailure);
        },
    };
    proof {
        assert forall|nm: Seq<char>, c: Seq<char>, d: Seq<char>, its: Seq<Seq<char>>|
            #[trigger] meta_image(text@, key@, nm, c, d, its) implies nm == name@ && j1 == i1
            + nm.len() && text@.subrange(j1 as int, text@.len() as int) == l2@ + rest_created(
            c,
            d,
            key@,
            its,
        ) by {
            lemma_plain_quote_unique(text@, i1 as int, j1 as int, i1 + nm.len());
            lemma_prefix_peel(text@, i1 as int, nm, l2@ + rest_created(c, d, key@, its));
        }
    }
    let i2 = match expect_lit(text, j1, l2) {
        Some(j) => j,
        None => {
            proof {
                assert forall|nm: Seq<char>, c: Seq<char>, d: Seq<char>, its: Seq<Seq<char>>|
                    !meta_image(text@, key@, nm, c, d, its) by {
                    if meta_image(text@, key@, nm, c, d, its) {
                        lemma_prefix_peel(text@, j1 as int, l2@, rest_created(c, d, key@, its));
                    }
                }
            }
            return Err(EngineError::ParseFailure);
        },
    };
    proof {
        assert forall|nm: Seq<char>, c: Seq<char>, d: Seq<char>, its: Seq<Seq<char>>|
            #[trigger] meta_image(text@, key@, nm, c, d, its) implies text@.subrange(
            i2 as int,
            text@.len() as int,
        ) == rest_created(c, d, key@, its) && plain_quote_at(text@, i2 as int, i2
            + c.len()) by {
            lemma_prefix_peel(text@, j1 as int, l2@, rest_created(c, d, key@, its));
            reveal_strlit("\",\"description\":\"");
            let tail = l3@ + rest_descr(d, key@, its);
            lemma_prefix_peel(text@, i2 as int, c, tail);
            assert(tail[0] == '"');
            assert forall|k: int| i2 <= k < i2 + c.len() implies plain_char(text@[k]) by {
                assert(text@.subrange(i2 as int, i2 + c.len() as int)[k - i2] == text@[k]);
                assert(c[k - i2] == text@[k]);
            }
            assert(text@.subrange(i2 + c.len(), text@.len() as int)[0] == text@[i2 + c.len()]);
        }
    }
    let (created, j2) = match read_plain(text, i2) {
        Some(p) => p,
        None => {
            proof {
                assert forall|nm: Seq<char>, c: Seq<char>, d: Seq<char>, its: Seq<Seq<char>>|
                    !meta_image(text@, key@, nm, c, d, its) by {
                    if meta_image(text@, key@, nm, c, d, its) {
                        assert(plain_quote_at(text@, i2 as int, i2 + c.len()));
                    }
                }
            }
            return Err(EngineError::ParseFailure);
        },
    };
    proof {
        assert forall|nm: Seq<char>, c: Seq<char>, d: Seq<char>, its: Seq<Seq<char>>|
            #[trigger] meta_image(text@, key@, nm, c, d, its) implies c == created@ && j2 == i2
            + c.len() && text@.subrange(j2 as int, text@.len() as int) == l3@ + rest_descr(
            d,
            key@,
            its,
        ) by {
            lemma_plain_quote_unique(text@, i2 as int, j2 as int, i2 + c.len());
            lemma_prefix_peel(text@, i2 as int, c, l3@ + rest_descr(d, key@, its));
        }
    }
    let i3 = match expect_lit(text, j2, l3) {
        Some(j) => j,
        None => {
            proof {
                assert forall|nm: Seq<char>, c: Seq<char>, d: Seq<char>, its: Seq<Seq<char>>|
                    !meta_image(text@, key@, nm, c, d, its) by {
                    if meta_image(text@, key@, nm, c, d, its) {
                        lemma_prefix_peel(text@, j2 as int, l3@, rest_descr(d, key@, its));
                    }
                }
            }
            return Err(EngineError::ParseFailure);
        },
    };
    proof {
        assert forall|nm: Seq<char>, c: Seq<char>, d: Seq<char>, its: Seq<Seq<char>>|
            #[trigger] meta_image(text@, key@, nm, c, d, its) implies text@.subrange(
            i3 as int,
            text@.len() as int,
        ) == rest_descr(d, key@, its) && plain_quote_at(text@, i3 as int, i3 + d.len()) by {
            lemma_prefix_peel(text@, j2 as int, l3@, rest_descr(d, key@, its));
            reveal_strlit("\",\"");
            let tail = l4@ + rest_key(key@, its);
            lemma_prefix_peel(text@, i3 as int, d, tail);
            assert(tail[0] == '"');
            assert forall|k: int| i3 <= k < i3 + d.len() implies plain_char(text@[k]) by {
                assert(text@.subrange(i3 as int, i3 + d.len() as int)[k - i3] == text@[k]);
                assert(d[k - i3] == text@[k]);
            }
            assert(text@.subrange(i3 + d.len(), text@.len() as int)[0] == text@[i3 + d.len()]);
        }
    }
    let (descr, j3) = match read_plain(text, i3) {
        Some(p) => p,
        None => {
            proof {
                assert forall|nm: Seq<char>, c: Seq<char>, d: Seq<char>, its: Seq<Seq<char>>|
                    !meta_image(text@, key@, nm, c, d, its) by {
                    if meta_image(text@, key@, nm, c, d, its) {
                        assert(plain_quote_at(text@, i3 as int, i3 + d.len()));
                    }
                }
            }
            return Err(EngineError::ParseFailure);
        },
    };
    proof {
        assert forall|nm: Seq<char>, c: Seq<char>, d: Seq<char>, its: Seq<Seq<char>>|
            #[trigger] meta_image(text@, key@, nm, c, d, its) implies d == descr@ && j3 == i3
            + d.len() && text@.subrange(j3 as int, text@.len() as int) == l4@ + rest_key(
            key@,
            its,
        ) by {
            lemma_plain_quote_unique(text@, i3 as int, j3 as int, i3 + d.len());
            lemma_prefix_peel(text@, i3 as int, d, l4@ + rest_key(key@, its));
        }
    }
    let i4 = match expect_lit(text, j3, l4) {
        Some(j) => j,
        None => {
            proof {
                assert forall|nm: Seq<char>, c: Seq<char>, d: Seq<char>, its: Seq<Seq<char>>|
                    !meta_image(text@, key@, nm, c, d, its) by {
                    if meta_image(text@, key@, nm, c, d, its) {
                        lemma_prefix_peel(text@, j3 as int, l4@, rest_key(key@, its));
                    }
                }
            }
            return Err(EngineError::ParseFailure);
        },
    };
    proof {
        assert forall|nm: Seq<char>, c: Seq<char>, d: Seq<char>, its: Seq<Seq<char>>|
            #[trigger] meta_image(text@, key@, nm, c, d, its) implies text@.subrange(
            i4 as int,
            text@.len() as int,
        ) == rest_key(key@, its) by {
            lemma_prefix_peel(text@, j3 as int, l4@, rest_key(key@, its));
        }
    }
    let i5 = match expect_lit(text, i4, key) {
        Some(j) => j,
        None => {
            proof {
                assert forall|nm: Seq<char>, c: Seq<char>, d: Seq<char>, its: Seq<Seq<char>>|
                    !meta_image(text@, key@, nm, c, d, its) by {
                    if meta_image(text@, key@, nm, c, d, its) {
                        lemma_prefix_peel(text@, i4 as int, key@, l5@ + rest_list(its));
                    }
                }
            }
            return Err(EngineError::ParseFailure);
        },
    };
    proof {
        assert forall|nm: Seq<char>, c: Seq<char>, d: Seq<char>, its: Seq<Seq<char>>|
            #[trigger] meta_image(text@, key@, nm, c, d, its) implies text@.subrange(
            i5 as int,
            text@.len() as int,
        ) == l5@ + rest_list(its) by {
            lemma_prefix_peel(text@, i4 as int, key@, l5@ + rest_list(its));
        }
    }
    let i6 = match expect_lit(text, i5, l5) {
        Some(j) => j,
        None => {
            proof {
                assert forall|nm: Seq<char>, c: Seq<char>, d: Seq<char>, its: Seq<Seq<char>>|
                    !meta_image(text@, key@, nm, c, d, its) by {
                    if meta_image(text@, key@, nm, c, d, its) {
                        lemma_prefix_peel(text@, i5 as int, l5@, rest_list(its));
                    }
                }
            }
            return Err(EngineError::ParseFailure);
        },
    };
    proof {
        assert forall|nm: Seq<char>, c: Seq<char>, d: Seq<char>, its: Seq<Seq<char>>|
            #[trigger] meta_image(text@, key@, nm, c, d, its) implies list_suffix_at(
            text@,
            i6 as int,
            its,
        ) by {
            lemma_prefix_peel(text@, i5 as int, l5@, rest_list(its));
        }
    }
    let (items, i7) = match parse_list(text, i6) {
        Some(p) => p,
        None => {
            proof {
                assert forall|nm: Seq<char>, c: Seq<char>, d: Seq<char>, its: Seq<Seq<char>>|
                    !meta_image(text@, key@, nm, c, d, its) by {
                    if meta_image(text@, key@, nm, c, d, its) {
                        assert(list_suffix_at(text@, i6 as int, its));
                    }
                }
            }
            return Err(EngineError::ParseFailure);
        },
    };
    let i8 = match expect_lit(text, i7, "}") {
        Some(j) => j,
        None => {
            proof {
                reveal_strlit("}");
                reveal_strlit("]}");
                assert forall|nm: Seq<char>, c: Seq<char>, d: Seq<char>, its: Seq<Seq<char>>|
                    !meta_image(text@, key@, nm, c, d, its) by {
                    if meta_image(text@, key@, nm, c, d, its) {
                        assert(list_suffix_at(text@, i6 as int, its));
                        assert(i7 + 1 == text@.len());
                        assert(text@.subrange(i6 as int, text@.len() as int)[text@.len() - 1
                            - i6] == text@[text@.len() - 1]);
                        assert((quoted_list(its) + "]}"@)[quoted_list(its).len() + 1 as int] == '}');
                        assert(text@.subrange(i7 as int, i7 + 1 as int) =~= "}"@);
                    }
                }
            }
            return Err(EngineError::ParseFailure);
        },
    };
    if i8 != n {
        proof {
            reveal_strlit("}");
            assert forall|nm: Seq<char>, c: Seq<char>, d: Seq<char>, its: Seq<Seq<char>>|
                !meta_image(text@, key@, nm, c, d, its) by {
                if meta_image(text@, key@, nm, c, d, its) {
                    assert(list_suffix_at(text@, i6 as int, its));
                    assert(i7 + 1 == text@.len());
                    assert(i8 == i7 + 1);
                }
            }
        }
        return Err(EngineError::ParseFailure);
    }
    proof {
        reveal_strlit("}");
        let t0 = text@;
        let nn = t0.len() as int;
        let ql = quoted_list(items.deep_view()) + seq![']'];
        lemma_prefix_extend(t0, i1 as int, j1 as int, l1@, name@);
        lemma_prefix_extend(t0, j1 as int, i2 as int, l1@ + name@, l2@);
        lemma_prefix_extend(t0, i2 as int, j2 as int, l1@ + name@ + l2@, created@);
        lemma_prefix_extend(t0, j2 as int, i3 as int, l1@ + name@ + l2@ + created@, l3@);
        lemma_prefix_extend(t0, i3 as int, j3 as int, l1@ + name@ + l2@ + created@ + l3@, descr@);
        lemma_prefix_extend(
            t0,
            j3 as int,
            i4 as int,
            l1@ + name@ + l2@ + created@ + l3@ + descr@,
            l4@,
        );
        lemma_prefix_extend(
            t0,
            i4 as int,
            i5 as int,
            l1@ + name@ + l2@ + created@ + l3@ + descr@ + l4@,
            key@,
        );
        lemma_prefix_extend(
            t0,
            i5 as int,
            i6 as int,
            l1@ + name@ + l2@ + created@ + l3@ + descr@ + l4@ + key@,
            l5@,
        );
        let pre = l1@ + name@ + l2@ + created@ + l3@ + descr@ + l4@ + key@ + l5@;
        lemma_prefix_extend(t0, i6 as int, i7 as int, pre, ql);
        lemma_prefix_extend(t0, i7 as int, i8 as int, pre + ql, "}"@);
        assert(t0.subrange(0, nn) =~= t0);
        assert(t0 == pre + ql + "}"@);
        reveal_strlit("]}");
        let qls = quoted_list(items.deep_view());
        assert(ql + "}"@ =~= qls + "]}"@);
        assert(pre + ql + "}"@ =~= pre + (ql + "}"@));
        assert(pre + (qls + "]}"@) =~= pre + qls + "]}"@);
        assert(t0 == pre + qls + "]}"@);
        assert(t0 =~= spec_encode(name@, created@, descr@, key@, items.deep_view()));
    }
    Ok(MetaParts { name, created, description: descr, items })
}


fn skip_ws(s: &str, i: usize) -> (r: usize)
    requires
        i <= s@.len(),
    ensures
        i <= r <= s@.len(),
{
    let n = s.unicode_len();
    let mut k: usize = i;
    while k < n
        invariant
            n == s@.len(),
            i <= k <= n,
        decreases n - k,
    {
        let c = s.get_char(k);
        if c != ' ' && c != '\t' && c != '\n' && c != '\r' {
            return k;
        }
        k = k + 1;
    }
    k
}

/// Skip past a quoted string whose opening quote sits just before `i`,
/// without decoding its escapes.
fn skip_string(s: &str, i: usize) -> (r: Option<usize>)
    requires
        i <= s@.len(),
    ensures
        r matches Some(j) ==> i < j <= s@.len(),
{
    let n = s.unicode_len();
    let mut k: usize = i;
    while k < n
        invariant
            n == s@.len(),
            i <= k <= n,
        decreases n - k,
    {
        let c = s.get_char(k);
        if c == '"' {
            return Some(k + 1);
        }
        if c == '\\' {
            if k + 1 >= n {
                return None;
            }
            k = k + 2;
        } else {
            k = k + 1;
        }
    }
    None
}

/// Skip past one value of an unknown field, without interpreting it.
fn skip_value(s: &str, i: usize) -> (r: Option<usize>)
    requires
        i <= s@.len(),
    ensures
        r matches Some(j) ==> i < j <= s@.len(),
{
    let n = s.unicode_len();
    if i >= n {
        return None;
    }
    let c0 = s.get_char(i);
    if c0 == '"' {
        return skip_string(s, i + 1);
    }
    if c0 == '[' || c0 == '{' {
        let mut depth: usize = 0;
        let mut k: usize = i;
        while k < n
            invariant
                n == s@.len(),
                i <= k <= n,
                depth <= k,
            decreases n - k,
        {
            let c = s.get_char(k);
            if c == '"' {
                match skip_string(s, k + 1) {
                    Some(j) => {
                        k = j;
                    },
                    None => {
                        return None;
                    },
                }
            } else if c == '[' || c == '{' {
                depth = depth + 1;
                k = k + 1;
            } else if c == ']' || c == '}' {
                if depth == 0 {
                    return None;
                }
                depth = depth - 1;
                k = k + 1;
                if depth == 0 {
                    return Some(k);
                }
            } else {
                k = k + 1;
            }
        }
        return None;
    }
    // A scalar: it runs to the comma or brace that ends the field.
    let mut k: usize = i;
    while k < n
        invariant
            n == s@.len(),
            i <= k <= n,
        decreases n - k,
    {
        let c = s.get_char(k);
        if c == ',' || c == '}' {
            if k == i {
                return None;
            }
            return Some(k);
        }
        k = k + 1;
    }
    None
}

/// Read a whitespace-tolerant array of plain quoted strings, starting at
/// the opening bracket.
fn read_string_list(s: &str, i: usize) -> (r: Option<(Vec<String>, usize)>)
    requires
        i <= s@.len(),
    ensures
        r matches Some(p) ==> i < p.1 <= s@.len() && all_plain(p.0.deep_view()),
{
    let n = s.unicode_len();
    if i >= n || s.get_char(i) != '[' {
        return None;
    }
    let mut out: Vec<String> = Vec::new();
    let mut k = skip_ws(s, i + 1);
    if k < n && s.get_char(k) == ']' {
        return Some((out, k + 1));
    }
    while k < n
        invariant
            n == s@.len(),
            i < k <= n,
            all_plain(out.deep_view()),
        decreases n - k,
    {
        if s.get_char(k) != '"' {
            return None;
        }
        let (item, j) = match read_plain(s, k + 1) {
            Some(p) => p,
            None => {
                return None;
            },
        };
        let ghost out0 = out.deep_view();
        out.push(item);
        proof {
            assert(out.deep_view() =~= out0.push(item@));
        }
        let k2 = skip_ws(s, j + 1);
        if k2 >= n {
            return None;
        }
        let c = s.get_char(k2);
        if c == ',' {
            let k3 = skip_ws(s, k2 + 1);
            if k3 <= k {
                return None;
            }
            k = k3;
        } else if c == ']' {
            return Some((out, k2 + 1));
        } else {
            return None;
        }
    }
    None
}

/// Read metadata text the way a tolerant reader would: fields in any
/// order, unknown fields skipped, whitespace between tokens allowed.
/// Every one of the four known fields must be present — in particular a
/// missing list field is a hard failure, never defaulted to empty.
fn lenient_scan(text: &str, key: &str) -> (r: Result<MetaParts, EngineError>)
    ensures
        r matches Err(e) ==> e matches EngineError::ParseFailure,
        r matches Ok(p) ==> plain(p.name@) && plain(p.created@) && plain(p.description@)
            && all_plain(p.items.deep_view()),
{
    let n = text.unicode_len();
    let mut name_v: Option<String> = None;
    let mut created_v: Option<String> = None;
    let mut descr_v: Option<String> = None;
    let mut items_v: Option<Vec<String>> = None;
    let mut i = skip_ws(text, 0);
    if i >= n || text.get_char(i) != '{' {
        return Err(EngineError::ParseFailure);
    }
    i = skip_ws(text, i + 1);
    if i < n && text.get_char(i) == '}' {
        return Err(EngineError::ParseFailure);  // the four fields are required
    }
    loop
        invariant
            n == text@.len(),
            i <= n,
            name_v matches Some(v) ==> plain(v@),
            created_v matches Some(v) ==> plain(v@),
            descr_v matches Some(v) ==> plain(v@),
            items_v matches Some(v) ==> all_plain(v.deep_view()),
        decreases n - i,
    {
        if i >= n || text.get_char(i) != '"' {
            return Err(EngineError::ParseFailure);
        }
        let (field, j) = match read_plain(text, i + 1) {
            Some(p) => p,
            None => {
                return Err(EngineError::ParseFailure);
            },
        };
        let mut k = skip_ws(text, j + 1);
        if k >= n || text.get_char(k) != ':' {
            return Err(EngineError::ParseFailure);
        }
        k = skip_ws(text, k + 1);
        let is_string_field = field.as_str() == "name" || field.as_str() == "created"
            || field.as_str() == "description";
        if is_string_field {
            if k >= n || text.get_char(k) != '"' {
                return Err(EngineError::ParseFailure);
            }
            let (value, vj) = match read_plain(text, k + 1) {
                Some(p) => p,
                None => {
                    return Err(EngineError::ParseFailure);
                },
            };
            if field.as_str() == "name" {
                name_v = Some(value);
            } else if field.as_str() == "created" {
                created_v = Some(value);
            } else {
                descr_v = Some(value);
            }
            k = vj + 1;
        } else if field.as_str() == key {
            let (items, vj) = match read_string_list(text, k) {
                Some(p) => p,
                None => {
                    return Err(EngineError::ParseFailure);
                },
            };
            items_v = Some(items);
            k = vj;
        } else {
            k = match skip_value(text, k) {
                Some(j2) => j2,
                None => {
                    return Err(EngineError::ParseFailure);
                },
            };
        }
        k = skip_ws(text, k);
        if k >= n {
            return Err(EngineError::ParseFailure);
        }
        let c = text.get_char(k);
        if c == ',' {
            let k2 = skip_ws(text, k + 1);
            if k2 <= i {
                return Err(EngineError::ParseFailure);
            }
            i = k2;
        } else if c == '}' {
            i = k + 1;
            break;
        } else {
            return Err(EngineError::ParseFailure);
        }
    }
    if skip_ws(text, i) != n {
        return Err(EngineError::ParseFailure);
    }
    match (name_v, created_v, descr_v, items_v) {
        (Some(name), Some(created), Some(description), Some(items)) => Ok(
            MetaParts { name, created, description, items },
        ),
        _ => Err(EngineError::ParseFailure),
    }
}

/// Parse metadata text under the list key `key`.
///
/// Text in the canonical form always parses to exactly the field values
/// it serializes.  Other conforming texts — fields reordered, unknown
/// fields, whitespace between tokens — are read by a tolerant scan; a
/// missing field, and in particular a missing list field, is a hard
/// `ParseFailure`, never defaulted.
pub fn parse_metadata(text: &str, key: &str) -> (r: Result<MetaParts, EngineError>)
    ensures
        forall|n: Seq<char>, c: Seq<char>, d: Seq<char>, its: Seq<Seq<char>>|
            #[trigger] meta_image(text@, key@, n, c, d, its) ==> (r matches Ok(p) && p.name@ == n
                && p.created@ == c && p.description@ == d && p.items.deep_view() == its),
        r matches Err(e) ==> e matches EngineError::ParseFailure,
        r matches Ok(p) ==> plain(p.name@) && plain(p.created@) && plain(p.description@)
            && all_plain(p.items.deep_view()),
{
    match parse_metadata_exact(text, key) {
        Ok(p) => Ok(p),
        Err(_) => lenient_scan(text, key),
    }
}

} // verus!





