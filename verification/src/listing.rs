//! The model names a provider lists: picked out of the reply, cleaned, and
//! put in lexicographic order.
use vstd::prelude::*;
use vstd::string::*;
use vstd::multiset::Multiset;
use crate::providers::ModelListFormat;
use crate::text::{chars_of, starts_with, starts_with_spec};

verus! {

broadcast use vstd::seq_lib::group_to_multiset_ensures;

/// `a` comes no later than `b` in lexicographic order of code points, which
/// is the order of `String` (UTF-8 keeps it).
pub open spec fn lex_le(a: Seq<char>, b: Seq<char>) -> bool
    decreases a.len(),
{
    if a.len() == 0 {
        true
    } else if b.len() == 0 {
        false
    } else if (a[0] as u32) < (b[0] as u32) {
        true
    } else if (a[0] as u32) != (b[0] as u32) {
        false
    } else {
        lex_le(a.drop_first(), b.drop_first())
    }
}

/// Any two texts are ordered one way or the other.
pub proof fn lemma_lex_total(a: Seq<char>, b: Seq<char>)
    ensures
        lex_le(a, b) || lex_le(b, a),
    decreases a.len(),
{
    if a.len() > 0 && b.len() > 0 && (a[0] as u32) == (b[0] as u32) {
        lemma_lex_total(a.drop_first(), b.drop_first());
    }
}

/// The order is transitive.
pub proof fn lemma_lex_trans(a: Seq<char>, b: Seq<char>, c: Seq<char>)
    requires
        lex_le(a, b),
        lex_le(b, c),
    ensures
        lex_le(a, c),
    decreases a.len(),
{
    if a.len() > 0 && b.len() > 0 && c.len() > 0 && (a[0] as u32) == (b[0] as u32) && (b[0] as u32) == (c[0] as u32) {
        lemma_lex_trans(a.drop_first(), b.drop_first(), c.drop_first());
    }
}

/// Whether `a` comes no later than `b`.
pub fn lex_le_exec(a: &String, b: &String) -> (res: bool)
    ensures
        res == lex_le(a@, b@),
{
    let x = chars_of(a.as_str());
    let y = chars_of(b.as_str());
    let mut i: usize = 0;
    assert(x@.skip(0) =~= x@);
    assert(y@.skip(0) =~= y@);
    while i < x.len() && i < y.len()
        invariant
            x@ == a@,
            y@ == b@,
            i <= x.len(),
            i <= y.len(),
            lex_le(a@, b@) == lex_le(x@.skip(i as int), y@.skip(i as int)),
        decreases x.len() - i,
    {
        assert(x@.skip(i as int).drop_first() =~= x@.skip(i + 1));
        assert(y@.skip(i as int).drop_first() =~= y@.skip(i + 1));
        let cx = x[i];
        let cy = y[i];
        if (cx as u32) < (cy as u32) {
            return true;
        }
        if (cx as u32) != (cy as u32) {
            return false;
        }
        i = i + 1;
    }
    i == x.len()
}

/// A list in lexicographic order.
pub open spec fn sorted_lex(s: Seq<Seq<char>>) -> bool {
    forall|i: int, j: int| 0 <= i < j < s.len() ==> lex_le(#[trigger] s[i], #[trigger] s[j])
}

/// `s` without every leading `models/`, as `trim_start_matches` leaves it.
pub open spec fn strip_models_prefix(s: Seq<char>) -> Seq<char>
    decreases s.len(),
{
    if starts_with_spec(s, "models/"@) {
        proof {
            reveal_strlit("models/");
        }
        strip_models_prefix(s.skip(7))
    } else {
        s
    }
}

/// The names present in a model list, cleaned for its format, in order.
pub open spec fn listed_names(names: Seq<Option<String>>, format: ModelListFormat) -> Seq<Seq<char>>
    decreases names.len(),
{
    if names.len() == 0 {
        Seq::empty()
    } else {
        let rest = listed_names(names.drop_last(), format);
        match names.last() {
            Some(n) => rest.push(
                if format == ModelListFormat::GeminiNames {
                    strip_models_prefix(n@)
                } else {
                    n@
                },
            ),
            None => rest,
        }
    }
}

/// `n` copies of `models/`, one after the other.
pub open spec fn models_prefixes(n: nat) -> Seq<char>
    decreases n,
{
    if n == 0 {
        Seq::empty()
    } else {
        "models/"@ + models_prefixes((n - 1) as nat)
    }
}

/// Cleaning a Gemini name removes every leading `models/` and nothing else:
/// the name is some number of `models/` followed by the cleaned name, which
/// does not itself start with `models/`.
pub proof fn lemma_strip_models_prefix(s: Seq<char>)
    ensures
        !starts_with_spec(strip_models_prefix(s), "models/"@),
        exists|n: nat| s == #[trigger] models_prefixes(n) + strip_models_prefix(s),
    decreases s.len(),
{
    reveal_strlit("models/");
    if starts_with_spec(s, "models/"@) {
        let rest = s.skip(7);
        lemma_strip_models_prefix(rest);
        let n = choose|n: nat| rest == #[trigger] models_prefixes(n) + strip_models_prefix(rest);
        assert(s.subrange(0, 7) == "models/"@);
        assert(s =~= "models/"@ + rest);
        assert(models_prefixes(n + 1) + strip_models_prefix(s) =~= "models/"@ + (models_prefixes(n)
            + strip_models_prefix(rest)));
        assert(s == models_prefixes(n + 1) + strip_models_prefix(s));
    } else {
        assert(models_prefixes(0) + s =~= s);
    }
}

/// The names a list reply yields are its present names, in order, each
/// cleaned as its format asks; entries without a name are skipped.
pub proof fn lemma_listed_names_are_the_present_names(names: Seq<Option<String>>, format: ModelListFormat)
    ensures
        listed_names(names, format) == names.filter(|o: Option<String>| o is Some).map_values(
            |o: Option<String>|
                if format == ModelListFormat::GeminiNames {
                    strip_models_prefix(o.unwrap()@)
                } else {
                    o.unwrap()@
                },
        ),
    decreases names.len(),
{
    reveal(Seq::filter);
    let pred = |o: Option<String>| o is Some;
    let f = |o: Option<String>|
        if format == ModelListFormat::GeminiNames {
            strip_models_prefix(o.unwrap()@)
        } else {
            o.unwrap()@
        };
    if names.len() == 0 {
        assert(names.filter(pred) =~= Seq::<Option<String>>::empty());
        assert(names.filter(pred).map_values(f) =~= Seq::<Seq<char>>::empty());
    } else {
        lemma_listed_names_are_the_present_names(names.drop_last(), format);
        let sub = names.drop_last().filter(pred);
        if pred(names.last()) {
            assert(names.filter(pred) == sub.push(names.last()));
            assert(sub.push(names.last()).map_values(f) =~= sub.map_values(f).push(f(names.last())));
        } else {
            assert(names.filter(pred) == sub);
        }
    }
}

/// The order is the lexicographic order of code points: `a` comes no later
/// than `b` exactly when `a` is a prefix of `b`, or at the first position
/// where they differ `a` has the smaller code point.
pub proof fn lemma_lex_le_is_lexicographic(a: Seq<char>, b: Seq<char>)
    ensures
        lex_le(a, b) <==> (a.len() <= b.len() && b.subrange(0, a.len() as int) == a) || exists|i: int|
            0 <= i < a.len() && i < b.len() && a.subrange(0, i) == b.subrange(0, i) && (#[trigger] a[i]
                as u32) < (b[i] as u32),
    decreases a.len(),
{
    if a.len() == 0 {
        assert(b.subrange(0, 0) =~= a);
    } else if b.len() == 0 {
    } else if (a[0] as u32) < (b[0] as u32) {
        assert(a.subrange(0, 0) =~= b.subrange(0, 0));
    } else if (a[0] as u32) != (b[0] as u32) {
        if a.len() <= b.len() && b.subrange(0, a.len() as int) == a {
            assert(b.subrange(0, a.len() as int)[0] == b[0]);
        }
        if exists|i: int|
            0 <= i < a.len() && i < b.len() && a.subrange(0, i) == b.subrange(0, i) && (#[trigger] a[i]
                as u32) < (b[i] as u32) {
            let i = choose|i: int|
                0 <= i < a.len() && i < b.len() && a.subrange(0, i) == b.subrange(0, i) && (#[trigger] a[i]
                    as u32) < (b[i] as u32);
            if i > 0 {
                assert(a.subrange(0, i)[0] == b.subrange(0, i)[0]);
            }
        }
    } else {
        let a1 = a.drop_first();
        let b1 = b.drop_first();
        lemma_lex_le_is_lexicographic(a1, b1);
        vstd::utf8::char_u32_cast(a[0], a[0] as u32);
        vstd::utf8::char_u32_cast(b[0], b[0] as u32);
        assert(a[0] == b[0]);
        if a1.len() <= b1.len() && b1.subrange(0, a1.len() as int) == a1 {
            assert forall|t: int| 0 <= t < a.len() implies #[trigger] b.subrange(0, a.len() as int)[t] == a[t] by {
                if t > 0 {
                    assert(b1.subrange(0, a1.len() as int)[t - 1] == a1[t - 1]);
                }
            }
            assert(b.subrange(0, a.len() as int) =~= a);
        }
        if a.len() <= b.len() && b.subrange(0, a.len() as int) == a {
            assert(b1.subrange(0, a1.len() as int) =~= a1);
        }
        if exists|i: int|
            0 <= i < a1.len() && i < b1.len() && a1.subrange(0, i) == b1.subrange(0, i) && (#[trigger] a1[i]
                as u32) < (b1[i] as u32) {
            let i = choose|i: int|
                0 <= i < a1.len() && i < b1.len() && a1.subrange(0, i) == b1.subrange(0, i) && (#[trigger] a1[i]
                    as u32) < (b1[i] as u32);
            assert forall|t: int| 0 <= t < i + 1 implies #[trigger] a.subrange(0, i + 1)[t] == b.subrange(0, i + 1)[t] by {
                if t > 0 {
                    assert(a1.subrange(0, i)[t - 1] == b1.subrange(0, i)[t - 1]);
                }
            }
            assert(a.subrange(0, i + 1) =~= b.subrange(0, i + 1));
            assert(a[i + 1] == a1[i]);
        }
        if exists|i: int|
            0 <= i < a.len() && i < b.len() && a.subrange(0, i) == b.subrange(0, i) && (#[trigger] a[i]
                as u32) < (b[i] as u32) {
            let i = choose|i: int|
                0 <= i < a.len() && i < b.len() && a.subrange(0, i) == b.subrange(0, i) && (#[trigger] a[i]
                    as u32) < (b[i] as u32);
            assert(i > 0);
            assert(a1.subrange(0, i - 1) =~= b1.subrange(0, i - 1)) by {
                assert forall|t: int| 0 <= t < i - 1 implies a1[t] == b1[t] by {
                    assert(a.subrange(0, i)[t + 1] == b.subrange(0, i)[t + 1]);
                }
            }
            assert(a1[i - 1] == a[i]);
        }
    }
}

/// The views of a list of strings.
pub open spec fn names_view(v: Seq<String>) -> Seq<Seq<char>> {
    v.map_values(|s: String| s@)
}

fn strip_models(name: &String) -> (res: String)
    ensures
        res@ == strip_models_prefix(name@),
{
    let c = chars_of(name.as_str());
    let prefix = chars_of("models/");
    proof {
        reveal_strlit("models/");
    }
    let mut start: usize = 0;
    assert(c@.skip(0) =~= c@);
    loop
        invariant
            c@ == name@,
            prefix@ == "models/"@,
            prefix@.len() == 7,
            "models/"@.len() == 7,
            start <= c.len(),
            strip_models_prefix(name@) == strip_models_prefix(c@.skip(start as int)),
        decreases c.len() - start,
    {
        let ghost rest = c@.skip(start as int);
        if c.len() - start >= 7 && occurs_from(&c, &prefix, start) {
            assert(rest.subrange(0, 7) =~= c@.subrange(start as int, start + 7));
            assert(starts_with_spec(rest, "models/"@));
            assert(rest.skip(7) =~= c@.skip(start + 7));
            start = start + 7;
        } else {
            assert(!starts_with_spec(rest, "models/"@)) by {
                if c.len() - start >= 7 {
                    assert(rest.subrange(0, 7) =~= c@.subrange(start as int, start + 7));
                }
            }
            return String::from_str(name.as_str().substring_char(start, c.len()));
        }
    }
}

fn occurs_from(c: &Vec<char>, p: &Vec<char>, start: usize) -> (res: bool)
    requires
        start + p@.len() <= c@.len(),
    ensures
        res == (c@.subrange(start as int, start + p@.len()) == p@),
{
    crate::text::occurs_at_exec(c, p, start)
}

proof fn lemma_insert_multiset(s: Seq<Seq<char>>, p: int, x: Seq<char>)
    requires
        0 <= p <= s.len(),
    ensures
        s.insert(p, x).to_multiset() == s.to_multiset().insert(x),
{
    let t = s.insert(p, x);
    assert(t.remove(p) =~= s);
    assert(t[p] == x);
    assert(t.to_multiset().count(x) > 0);
    assert(t.remove(p).to_multiset() =~= t.to_multiset().remove(x));
    assert(t.to_multiset() =~= t.to_multiset().remove(x).insert(x));
}

/// The model names of a list reply, sorted: entries without a name are
/// skipped, and Gemini names lose their `models/` prefix.
pub fn model_ids(names: Vec<Option<String>>, format: ModelListFormat) -> (res: Vec<String>)
    ensures
        sorted_lex(names_view(res@)),
        names_view(res@).to_multiset() == listed_names(names@, format).to_multiset(),
{
    let mut out: Vec<String> = Vec::new();
    let mut k: usize = 0;
    while k < names.len()
        invariant
            k <= names.len(),
            sorted_lex(names_view(out@)),
            names_view(out@).to_multiset() == listed_names(names@.subrange(0, k as int), format).to_multiset(),
        decreases names.len() - k,
    {
        assert(names@.subrange(0, k + 1).drop_last() =~= names@.subrange(0, k as int));
        match &names[k] {
            Some(n) => {
                let x = if format == ModelListFormat::GeminiNames {
                    strip_models(n)
                } else {
                    n.clone()
                };
                let ghost v = names_view(out@);
                let mut p: usize = 0;
                while p < out.len() && lex_le_exec(&out[p], &x)
                    invariant
                        p <= out.len(),
                        v == names_view(out@),
                        forall|i: int| 0 <= i < p ==> lex_le(#[trigger] v[i], x@),
                    decreases out.len() - p,
                {
                    p = p + 1;
                }
                proof {
                    if p < out.len() {
                        lemma_lex_total(v[p as int], x@);
                        assert forall|j: int| p <= j < v.len() implies lex_le(x@, #[trigger] v[j]) by {
                            if j > p {
                                lemma_lex_trans(x@, v[p as int], v[j]);
                            }
                        }
                    }
                }
                out.insert(p, x);
                proof {
                    let w = names_view(out@);
                    assert(w =~= v.insert(p as int, x@));
                    assert forall|i: int, j: int| 0 <= i < j < w.len() implies lex_le(#[trigger] w[i], #[trigger] w[j]) by {
                        if j < p {
                        } else if j == p {
                        } else if i < p {
                            lemma_lex_trans(w[i], x@, w[j]);
                        } else if i == p {
                        } else {
                        }
                    }
                    lemma_insert_multiset(v, p as int, x@);
                }
            },
            None => {},
        }
        k = k + 1;
    }
    assert(names@.subrange(0, names.len() as int) =~= names@);
    out
}

} // verus!
