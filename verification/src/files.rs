use vstd::prelude::*;

use crate::text::{chars_of, string_views};

verus! {

/// A path met while walking the source directory: its components, as text, and
/// its extension, if it has one.
pub struct WalkedPath {
    pub components: Vec<String>,
    pub extension: Option<String>,
}

/// Whether character `x` comes before character `y`: by code point.
pub open spec fn char_lt(x: char, y: char) -> bool {
    (x as u32) < (y as u32)
}

proof fn lemma_char_lt_total(x: char, y: char)
    ensures
        x != y ==> char_lt(x, y) || char_lt(y, x),
{
}

/// Whether text `a` comes before text `b`, comparing character by character.
pub open spec fn text_lt(a: Seq<char>, b: Seq<char>) -> bool
    decreases a.len(),
{
    if a.len() == 0 {
        b.len() > 0
    } else if b.len() == 0 {
        false
    } else if a[0] != b[0] {
        (a[0] as u32) < (b[0] as u32)
    } else {
        text_lt(a.drop_first(), b.drop_first())
    }
}

/// Whether path `a` comes before path `b`, comparing component by component.
pub open spec fn path_lt(a: Seq<Seq<char>>, b: Seq<Seq<char>>) -> bool
    decreases a.len(),
{
    if a.len() == 0 {
        b.len() > 0
    } else if b.len() == 0 {
        false
    } else if a[0] != b[0] {
        text_lt(a[0], b[0])
    } else {
        path_lt(a.drop_first(), b.drop_first())
    }
}

proof fn lemma_text_lt_total(a: Seq<char>, b: Seq<char>)
    ensures
        !text_lt(a, a),
        text_lt(a, b) ==> !text_lt(b, a),
        a != b ==> text_lt(a, b) || text_lt(b, a),
    decreases a.len(),
{
    if a.len() > 0 {
        lemma_text_lt_total(a.drop_first(), a.drop_first());
    }
    if a.len() > 0 && b.len() > 0 {
        lemma_char_lt_total(a[0], b[0]);
        lemma_text_lt_total(a.drop_first(), b.drop_first());
        if a[0] == b[0] && a.drop_first() == b.drop_first() {
            assert(a =~= seq![a[0]] + a.drop_first());
            assert(b =~= seq![b[0]] + b.drop_first());
        }
    }
    if a.len() == 0 && b.len() == 0 {
        assert(a =~= b);
    }
}

proof fn lemma_text_lt_trans(a: Seq<char>, b: Seq<char>, c: Seq<char>)
    ensures
        text_lt(a, b) && text_lt(b, c) ==> text_lt(a, c),
    decreases a.len(),
{
    if a.len() > 0 && b.len() > 0 && c.len() > 0 {
        lemma_text_lt_trans(a.drop_first(), b.drop_first(), c.drop_first());
    }
}

/// Text order is a strict total order.
pub proof fn lemma_text_lt_order(a: Seq<char>, b: Seq<char>, c: Seq<char>)
    ensures
        !text_lt(a, a),
        text_lt(a, b) ==> !text_lt(b, a),
        text_lt(a, b) && text_lt(b, c) ==> text_lt(a, c),
        a != b ==> text_lt(a, b) || text_lt(b, a),
{
    lemma_text_lt_total(a, b);
    lemma_text_lt_trans(a, b, c);
}

proof fn lemma_path_lt_total(a: Seq<Seq<char>>, b: Seq<Seq<char>>)
    ensures
        !path_lt(a, a),
        path_lt(a, b) ==> !path_lt(b, a),
        a != b ==> path_lt(a, b) || path_lt(b, a),
    decreases a.len(),
{
    if a.len() > 0 {
        lemma_path_lt_total(a.drop_first(), a.drop_first());
    }
    if a.len() > 0 && b.len() > 0 {
        lemma_text_lt_order(a[0], b[0], b[0]);
        lemma_path_lt_total(a.drop_first(), b.drop_first());
        if a[0] == b[0] && a.drop_first() == b.drop_first() {
            assert(a =~= seq![a[0]] + a.drop_first());
            assert(b =~= seq![b[0]] + b.drop_first());
        }
    }
    if a.len() == 0 && b.len() == 0 {
        assert(a =~= b);
    }
}

proof fn lemma_path_lt_trans(a: Seq<Seq<char>>, b: Seq<Seq<char>>, c: Seq<Seq<char>>)
    ensures
        path_lt(a, b) && path_lt(b, c) ==> path_lt(a, c),
    decreases a.len(),
{
    if a.len() > 0 && b.len() > 0 && c.len() > 0 {
        lemma_text_lt_order(a[0], b[0], c[0]);
        lemma_path_lt_trans(a.drop_first(), b.drop_first(), c.drop_first());
    }
}

/// Path order is a strict total order.
pub proof fn lemma_path_lt_order(a: Seq<Seq<char>>, b: Seq<Seq<char>>, c: Seq<Seq<char>>)
    ensures
        !path_lt(a, a),
        path_lt(a, b) ==> !path_lt(b, a),
        path_lt(a, b) && path_lt(b, c) ==> path_lt(a, c),
        a != b ==> path_lt(a, b) || path_lt(b, a),
{
    lemma_path_lt_total(a, b);
    lemma_path_lt_trans(a, b, c);
}

/// Texts `a` and `b` first differ at index `k`, and there `a` comes first:
/// they agree before `k`, and either `a` has a character of smaller code point
/// at `k`, or `a` ends at `k` while `b` goes on.
pub open spec fn text_first_differs_at(a: Seq<char>, b: Seq<char>, k: int) -> bool {
    &&& 0 <= k <= a.len()
    &&& k <= b.len()
    &&& a.take(k) == b.take(k)
    &&& ((k < a.len() && k < b.len() && (a[k] as u32) < (b[k] as u32)) || (k == a.len() && k
        < b.len()))
}

/// Text `a` comes strictly before text `b` in dictionary order by code point.
pub open spec fn text_before(a: Seq<char>, b: Seq<char>) -> bool {
    exists|k: int| #[trigger] text_first_differs_at(a, b, k)
}

/// Paths `a` and `b` first differ at component `k`, and there `a` comes first:
/// they agree before `k`, and either `a`'s component at `k` comes before `b`'s,
/// or `a` ends at `k` while `b` goes on.
pub open spec fn path_first_differs_at(a: Seq<Seq<char>>, b: Seq<Seq<char>>, k: int) -> bool {
    &&& 0 <= k <= a.len()
    &&& k <= b.len()
    &&& a.take(k) == b.take(k)
    &&& ((k < a.len() && k < b.len() && text_before(a[k], b[k])) || (k == a.len() && k < b.len()))
}

/// Path `a` comes strictly before path `b`: component by component, each
/// compared in dictionary order by code point.
pub open spec fn path_before(a: Seq<Seq<char>>, b: Seq<Seq<char>>) -> bool {
    exists|k: int| #[trigger] path_first_differs_at(a, b, k)
}

/// The character order used to sort is dictionary order by code point.
pub proof fn law_text_order_is_code_point_order(a: Seq<char>, b: Seq<char>)
    ensures
        text_lt(a, b) <==> text_before(a, b),
    decreases a.len(),
{
    if a.len() == 0 {
        if b.len() > 0 {
            assert(a.take(0) =~= b.take(0));
            assert(text_first_differs_at(a, b, 0));
        }
    } else if b.len() == 0 {
        if text_before(a, b) {
            let k = choose|k: int| #[trigger] text_first_differs_at(a, b, k);
        }
    } else {
        law_text_order_is_code_point_order(a.drop_first(), b.drop_first());
        if a[0] != b[0] {
            if (a[0] as u32) < (b[0] as u32) {
                assert(a.take(0) =~= b.take(0));
                assert(text_first_differs_at(a, b, 0));
            }
            if text_before(a, b) {
                let k = choose|k: int| #[trigger] text_first_differs_at(a, b, k);
                if k > 0 {
                    assert(a.take(k)[0] == b.take(k)[0]);
                }
            }
        } else {
            let a1 = a.drop_first();
            let b1 = b.drop_first();
            if text_before(a1, b1) {
                let k = choose|k: int| #[trigger] text_first_differs_at(a1, b1, k);
                assert(a.take(k + 1) =~= seq![a[0]] + a1.take(k));
                assert(b.take(k + 1) =~= seq![b[0]] + b1.take(k));
                if k < a1.len() {
                    assert(a[k + 1] == a1[k]);
                }
                if k < b1.len() {
                    assert(b[k + 1] == b1[k]);
                }
                assert(text_first_differs_at(a, b, k + 1));
            }
            if text_before(a, b) {
                let k = choose|k: int| #[trigger] text_first_differs_at(a, b, k);
                if k == 0 {
                    assert(false);
                }
                assert(a1.take(k - 1) =~= a.take(k).drop_first());
                assert(b1.take(k - 1) =~= b.take(k).drop_first());
                if k < a.len() {
                    assert(a1[k - 1] == a[k]);
                }
                if k < b.len() {
                    assert(b1[k - 1] == b[k]);
                }
                assert(text_first_differs_at(a1, b1, k - 1));
            }
        }
    }
}

/// The path order used to sort is component by component, each in dictionary
/// order by code point.
pub proof fn law_path_order_is_componentwise(a: Seq<Seq<char>>, b: Seq<Seq<char>>)
    ensures
        path_lt(a, b) <==> path_before(a, b),
    decreases a.len(),
{
    if a.len() == 0 {
        if b.len() > 0 {
            assert(a.take(0) =~= b.take(0));
            assert(path_first_differs_at(a, b, 0));
        }
    } else if b.len() == 0 {
        if path_before(a, b) {
            let k = choose|k: int| #[trigger] path_first_differs_at(a, b, k);
        }
    } else {
        law_path_order_is_componentwise(a.drop_first(), b.drop_first());
        law_text_order_is_code_point_order(a[0], b[0]);
        if a[0] != b[0] {
            if text_lt(a[0], b[0]) {
                assert(a.take(0) =~= b.take(0));
                assert(path_first_differs_at(a, b, 0));
            }
            if path_before(a, b) {
                let k = choose|k: int| #[trigger] path_first_differs_at(a, b, k);
                if k > 0 {
                    assert(a.take(k)[0] == b.take(k)[0]);
                }
            }
        } else {
            let a1 = a.drop_first();
            let b1 = b.drop_first();
            if path_before(a1, b1) {
                let k = choose|k: int| #[trigger] path_first_differs_at(a1, b1, k);
                assert(a.take(k + 1) =~= seq![a[0]] + a1.take(k));
                assert(b.take(k + 1) =~= seq![b[0]] + b1.take(k));
                if k < a1.len() {
                    assert(a[k + 1] == a1[k]);
                }
                if k < b1.len() {
                    assert(b[k + 1] == b1[k]);
                }
                assert(path_first_differs_at(a, b, k + 1));
            }
            if path_before(a, b) {
                let k = choose|k: int| #[trigger] path_first_differs_at(a, b, k);
                if k == 0 {
                    lemma_text_lt_order(a[0], a[0], a[0]);
                    law_text_order_is_code_point_order(a[0], a[0]);
                    assert(false);
                }
                assert(a1.take(k - 1) =~= a.take(k).drop_first());
                assert(b1.take(k - 1) =~= b.take(k).drop_first());
                if k < a.len() {
                    assert(a1[k - 1] == a[k]);
                }
                if k < b.len() {
                    assert(b1[k - 1] == b[k]);
                }
                assert(path_first_differs_at(a1, b1, k - 1));
            }
        }
    }
}

/// The texts of the character vectors `v`.
pub open spec fn chars_views(v: Seq<Vec<char>>) -> Seq<Seq<char>> {
    v.map_values(|c: Vec<char>| c@)
}

/// Whether text `a` comes before text `b`.
fn text_less(a: &Vec<char>, b: &Vec<char>) -> (lt: bool)
    ensures
        lt == text_lt(a@, b@),
{
    let mut i: usize = 0;
    assert(a@.skip(0) =~= a@);
    assert(b@.skip(0) =~= b@);
    while i < a.len() && i < b.len()
        invariant
            i <= a@.len(),
            i <= b@.len(),
            text_lt(a@, b@) == text_lt(a@.skip(i as int), b@.skip(i as int)),
        decreases a@.len() - i,
    {
        assert(a@.skip(i as int)[0] == a@[i as int]);
        assert(b@.skip(i as int)[0] == b@[i as int]);
        if a[i] != b[i] {
            return (a[i] as u32) < (b[i] as u32);
        }
        assert(a@.skip(i as int).drop_first() =~= a@.skip(i + 1));
        assert(b@.skip(i as int).drop_first() =~= b@.skip(i + 1));
        i = i + 1;
    }
    i < b.len()
}

/// Whether path `a` comes before path `b`.
fn path_less(a: &Vec<Vec<char>>, b: &Vec<Vec<char>>) -> (lt: bool)
    ensures
        lt == path_lt(chars_views(a@), chars_views(b@)),
{
    let ghost av = chars_views(a@);
    let ghost bv = chars_views(b@);
    let mut i: usize = 0;
    assert(av.skip(0) =~= av);
    assert(bv.skip(0) =~= bv);
    while i < a.len() && i < b.len()
        invariant
            av == chars_views(a@),
            bv == chars_views(b@),
            i <= a@.len(),
            i <= b@.len(),
            path_lt(av, bv) == path_lt(av.skip(i as int), bv.skip(i as int)),
        decreases a@.len() - i,
    {
        assert(av.skip(i as int)[0] == a@[i as int]@);
        assert(bv.skip(i as int)[0] == b@[i as int]@);
        proof {
            lemma_text_lt_order(a@[i as int]@, b@[i as int]@, b@[i as int]@);
        }
        if text_less(&a[i], &b[i]) {
            return true;
        }
        if text_less(&b[i], &a[i]) {
            return false;
        }
        assert(av.skip(i as int).drop_first() =~= av.skip(i + 1));
        assert(bv.skip(i as int).drop_first() =~= bv.skip(i + 1));
        i = i + 1;
    }
    i < b.len()
}

/// The characters of each component of a path.
fn path_chars(p: &WalkedPath) -> (k: Vec<Vec<char>>)
    ensures
        chars_views(k@) == string_views(p.components@),
{
    let mut k: Vec<Vec<char>> = Vec::new();
    let n = p.components.len();
    let mut i: usize = 0;
    while i < n
        invariant
            n == p.components@.len(),
            i <= n,
            k@.len() == i,
            chars_views(k@) == string_views(p.components@.take(i as int)),
        decreases n - i,
    {
        let ghost before = k@;
        let c = chars_of(p.components[i].as_str());
        k.push(c);
        assert forall|j: int| 0 <= j < i implies #[trigger] k@[j]@ == p.components@[j]@ by {
            assert(k@[j] == before[j]);
            assert(chars_views(before)[j] == string_views(p.components@.take(i as int))[j]);
        }
        assert(chars_views(k@) =~= string_views(p.components@.take(i + 1)));
        i = i + 1;
    }
    assert(p.components@.take(n as int) =~= p.components@);
    k
}

/// Whether a walked entry is a mond source file: a path whose extension is `mond`.
pub open spec fn is_mond_file(entry: Option<WalkedPath>) -> bool {
    entry matches Some(p) && p.extension matches Some(ext) && ext@ == "mond"@
}

/// The components of the path of a walked entry.
pub open spec fn path_key(entry: Option<WalkedPath>) -> Seq<Seq<char>> {
    string_views(entry->0.components@)
}

/// Picks the mond source files out of the entries met while walking a directory
/// (`None` for an entry that could not be read), and gives their indices in path
/// order; paths that compare equal keep the order of the walk.
#[verifier::rlimit(60)]
pub fn find_mond_files(entries: &Vec<Option<WalkedPath>>) -> (order: Vec<usize>)
    ensures
        forall|x: usize| #[trigger] order@.contains(x) <==> (x < entries@.len() && is_mond_file(entries@[x as int])),
        forall|a: int, b: int| 0 <= a < b < order@.len() ==> order@[a] != order@[b],
        forall|a: int, b: int|
            0 <= a < b < order@.len() ==> !path_lt(
                path_key(entries@[order@[b] as int]),
                path_key(entries@[order@[a] as int]),
            ),
        forall|a: int, b: int|
            0 <= a < b < order@.len() && path_key(entries@[order@[a] as int]) == path_key(
                entries@[order@[b] as int],
            ) ==> order@[a] < order@[b],
        forall|a: int, b: int|
            0 <= a < b < order@.len() ==> !path_before(
                path_key(entries@[order@[b] as int]),
                path_key(entries@[order@[a] as int]),
            ),
{
    let ghost es = entries@;
    let mond = "mond".to_owned();
    let mut order: Vec<usize> = Vec::new();
    let mut keys: Vec<Vec<Vec<char>>> = Vec::new();
    let n = entries.len();
    let mut i: usize = 0;
    while i < n
        invariant
            es == entries@,
            n == es.len(),
            i <= n,
            mond@ == "mond"@,
            keys@.len() == order@.len(),
            forall|k: int| 0 <= k < order@.len() ==> chars_views(#[trigger] keys@[k]@) == path_key(es[order@[k] as int]),
            forall|x: usize| #[trigger] order@.contains(x) <==> (x < i && is_mond_file(es[x as int])),
            forall|a: int, b: int| 0 <= a < b < order@.len() ==> order@[a] != order@[b],
            forall|a: int, b: int|
                0 <= a < b < order@.len() ==> !path_lt(path_key(es[order@[b] as int]), path_key(es[order@[a] as int])),
            forall|a: int, b: int|
                0 <= a < b < order@.len() && path_key(es[order@[a] as int]) == path_key(es[order@[b] as int]) ==> order@[a] < order@[b],
        decreases n - i,
    {
        let selected = match &entries[i] {
            Some(p) => match &p.extension {
                Some(ext) => *ext == mond,
                None => false,
            },
            None => false,
        };
        assert(selected == is_mond_file(es[i as int]));
        if selected {
            let key = match &entries[i] {
                Some(p) => path_chars(p),
                None => Vec::new(),
            };
            let ghost kv = path_key(es[i as int]);
            assert(chars_views(key@) == kv);
            let mut pos: usize = 0;
            while pos < order.len() && !path_less(&key, &keys[pos])
                invariant
                    keys@.len() == order@.len(),
                    pos <= order@.len(),
                    forall|k: int| 0 <= k < order@.len() ==> chars_views(#[trigger] keys@[k]@) == path_key(es[order@[k] as int]),
                    chars_views(key@) == kv,
                    forall|q: int| 0 <= q < pos ==> !path_lt(kv, path_key(es[#[trigger] order@[q] as int])),
                decreases order@.len() - pos,
            {
                pos = pos + 1;
            }
            let ghost old_order = order@;
            proof {
                assert forall|q: int| pos <= q < old_order.len() implies path_lt(kv, path_key(es[#[trigger] old_order[q] as int])) by {
                    let kp = path_key(es[old_order[pos as int] as int]);
                    let kq = path_key(es[old_order[q] as int]);
                    lemma_path_lt_order(kv, kp, kq);
                    lemma_path_lt_order(kp, kq, kq);
                }
            }
            order.insert(pos, i);
            keys.insert(pos, key);
            proof {
                old_order.insert_ensures(pos as int, i);
                assert forall|k: int| 0 <= k < order@.len() implies chars_views(#[trigger] keys@[k]@) == path_key(es[order@[k] as int]) by {
                    if k > pos {
                        assert(order@[k] == old_order[k - 1]);
                    }
                }
                assert forall|x: usize| #[trigger] order@.contains(x) <==> (x < i + 1 && is_mond_file(es[x as int])) by {
                    if order@.contains(x) {
                        let k = choose|k: int| 0 <= k < order@.len() && order@[k] == x;
                        if k < pos {
                            assert(old_order[k] == x);
                            assert(old_order.contains(x));
                        } else if k > pos {
                            assert(old_order[k - 1] == x);
                            assert(old_order.contains(x));
                        } else {
                            assert(x == i);
                        }
                    }
                    if x < i + 1 && is_mond_file(es[x as int]) {
                        if x == i {
                            assert(order@[pos as int] == x);
                        } else {
                            assert(old_order.contains(x));
                            let k = choose|k: int| 0 <= k < old_order.len() && old_order[k] == x;
                            if k < pos {
                                assert(order@[k] == x);
                            } else {
                                assert(order@[k + 1] == x);
                            }
                        }
                    }
                }
                assert forall|a: int| 0 <= a < old_order.len() implies #[trigger] old_order[a] < i by {
                    assert(old_order.contains(old_order[a]));
                }
                assert forall|a: int, b: int| 0 <= a < b < order@.len() implies order@[a] != order@[b] by {
                    let oa = if a < pos { a } else { a - 1 };
                    let ob = if b < pos { b } else { b - 1 };
                    if a != pos && b != pos {
                        assert(order@[a] == old_order[oa]);
                        assert(order@[b] == old_order[ob]);
                    } else if a == pos {
                        assert(order@[b] == old_order[ob]);
                    } else {
                        assert(order@[a] == old_order[oa]);
                    }
                }
                assert forall|a: int, b: int| 0 <= a < b < order@.len() implies !path_lt(path_key(es[order@[b] as int]), path_key(es[order@[a] as int])) && (path_key(es[order@[a] as int]) == path_key(es[order@[b] as int]) ==> order@[a] < order@[b]) by {
                    let oa = if a < pos { a } else { a - 1 };
                    let ob = if b < pos { b } else { b - 1 };
                    if a != pos && b != pos {
                        assert(order@[a] == old_order[oa]);
                        assert(order@[b] == old_order[ob]);
                    } else if a == pos {
                        assert(order@[b] == old_order[ob]);
                        let kb = path_key(es[old_order[ob] as int]);
                        lemma_path_lt_order(kv, kb, kb);
                    } else {
                        assert(order@[a] == old_order[oa]);
                        let ka = path_key(es[old_order[oa] as int]);
                        lemma_path_lt_order(kv, ka, ka);
                    }
                }
            }
        } else {
            proof {
                assert forall|x: usize| #[trigger] order@.contains(x) <==> (x < i + 1 && is_mond_file(es[x as int])) by {
                    if x == i {
                        assert(!is_mond_file(es[x as int]));
                    }
                }
            }
        }
        i = i + 1;
    }
    proof {
        assert forall|a: int, b: int| 0 <= a < b < order@.len() implies !path_before(
            path_key(es[order@[b] as int]),
            path_key(es[order@[a] as int]),
        ) by {
            law_path_order_is_componentwise(
                path_key(es[order@[b] as int]),
                path_key(es[order@[a] as int]),
            );
        }
    }
    order
}

} // verus!
