//! Character classes, string comparison, trimming and ordered de-duplication
//! of strings, all stated over the character sequences (`@`) of the strings.
use vstd::prelude::*;

verus! {

// ---------------------------------------------------------------------------
// Character classes
// ---------------------------------------------------------------------------
/// ASCII letters and digits (`char::is_ascii_alphanumeric`).
pub open spec fn is_ascii_alnum(c: char) -> bool {
    ('a' <= c && c <= 'z') || ('A' <= c && c <= 'Z') || ('0' <= c && c <= '9')
}

/// The Unicode `White_Space` property, which `char::is_whitespace` and
/// `str::trim` use.
pub open spec fn is_white_space(c: char) -> bool {
    ||| ('\u{9}' <= c && c <= '\u{d}')
    ||| c == ' '
    ||| c == '\u{85}'
    ||| c == '\u{a0}'
    ||| c == '\u{1680}'
    ||| ('\u{2000}' <= c && c <= '\u{200a}')
    ||| c == '\u{2028}'
    ||| c == '\u{2029}'
    ||| c == '\u{202f}'
    ||| c == '\u{205f}'
    ||| c == '\u{3000}'
}

pub fn ascii_alnum(c: char) -> (r: bool)
    ensures
        r == is_ascii_alnum(c),
{
    ('a' <= c && c <= 'z') || ('A' <= c && c <= 'Z') || ('0' <= c && c <= '9')
}

pub fn white_space(c: char) -> (r: bool)
    ensures
        r == is_white_space(c),
{
    ('\u{9}' <= c && c <= '\u{d}') || c == ' ' || c == '\u{85}' || c == '\u{a0}' || c
        == '\u{1680}' || ('\u{2000}' <= c && c <= '\u{200a}') || c == '\u{2028}' || c
        == '\u{2029}' || c == '\u{202f}' || c == '\u{205f}' || c == '\u{3000}'
}

// ---------------------------------------------------------------------------
// Characters and equality
// ---------------------------------------------------------------------------
/// The characters of a string slice, in order.
pub fn chars_of(s: &str) -> (res: Vec<char>)
    ensures
        res@ == s@,
{
    let mut res: Vec<char> = Vec::new();
    for c in it: s.chars()
        invariant
            res@ == it.seq().take(it.index() as int),
    {
        res.push(c);
    }
    res
}

/// Whether two string slices hold the same characters.
pub fn str_eq(a: &str, b: &str) -> (r: bool)
    ensures
        r == (a@ == b@),
{
    let x = chars_of(a);
    let y = chars_of(b);
    if x.len() != y.len() {
        return false;
    }
    let mut i: usize = 0;
    while i < x.len()
        invariant
            x@ == a@,
            y@ == b@,
            x.len() == y.len(),
            i <= x.len(),
            forall|k: int| 0 <= k < i ==> x@[k] == y@[k],
        decreases x.len() - i,
    {
        if x[i] != y[i] {
            return false;
        }
        i = i + 1;
    }
    assert(x@ =~= y@);
    true
}

/// The character sequences of a sequence of strings.
pub open spec fn views(v: Seq<String>) -> Seq<Seq<char>> {
    v.map_values(|s: String| s@)
}

/// Whether a list of strings holds a string with the characters of `s`.
pub fn contains_str(list: &Vec<String>, s: &str) -> (r: bool)
    ensures
        r == views(list@).contains(s@),
{
    let mut i: usize = 0;
    while i < list.len()
        invariant
            i <= list.len(),
            forall|k: int| 0 <= k < i ==> list@[k]@ != s@,
        decreases list.len() - i,
    {
        if str_eq(list[i].as_str(), s) {
            assert(views(list@)[i as int] == s@);
            return true;
        }
        i = i + 1;
    }
    assert forall|k: int| 0 <= k < views(list@).len() implies views(list@)[k] != s@ by {
        assert(list@[k]@ != s@);
    }
    false
}

// ---------------------------------------------------------------------------
// Lexicographic order (the order of `Ord for str`: by Unicode scalar value)
// ---------------------------------------------------------------------------
/// `a` sorts strictly before `b`.
pub open spec fn seq_less(a: Seq<char>, b: Seq<char>) -> bool
    decreases a.len(),
{
    if b.len() == 0 {
        false
    } else if a.len() == 0 {
        true
    } else if a[0] != b[0] {
        a[0] < b[0]
    } else {
        seq_less(a.drop_first(), b.drop_first())
    }
}

pub proof fn lemma_less_irreflexive(a: Seq<char>)
    ensures
        !seq_less(a, a),
    decreases a.len(),
{
    if a.len() > 0 {
        lemma_less_irreflexive(a.drop_first());
    }
}

pub proof fn lemma_less_total(a: Seq<char>, b: Seq<char>)
    ensures
        a != b ==> seq_less(a, b) || seq_less(b, a),
        !(seq_less(a, b) && seq_less(b, a)),
    decreases a.len(),
{
    if a.len() > 0 && b.len() > 0 && a[0] == b[0] {
        lemma_less_total(a.drop_first(), b.drop_first());
        if a != b {
            assert(a.drop_first() != b.drop_first()) by {
                if a.drop_first() == b.drop_first() {
                    assert(a =~= seq![a[0]] + a.drop_first());
                    assert(b =~= seq![b[0]] + b.drop_first());
                }
            }
        }
    } else if a.len() == 0 && b.len() == 0 {
        assert(a =~= b);
    }
}

pub proof fn lemma_less_transitive(a: Seq<char>, b: Seq<char>, c: Seq<char>)
    requires
        seq_less(a, b),
        seq_less(b, c),
    ensures
        seq_less(a, c),
    decreases a.len(),
{
    if a.len() > 0 && a[0] == b[0] && b[0] == c[0] {
        lemma_less_transitive(a.drop_first(), b.drop_first(), c.drop_first());
    }
}

proof fn lemma_less_step(a: Seq<char>, b: Seq<char>, i: int)
    requires
        0 <= i < a.len(),
        i < b.len(),
        a[i] == b[i],
    ensures
        seq_less(a.skip(i), b.skip(i)) == seq_less(a.skip(i + 1), b.skip(i + 1)),
{
    assert(a.skip(i).drop_first() =~= a.skip(i + 1));
    assert(b.skip(i).drop_first() =~= b.skip(i + 1));
}

/// Whether `a` sorts strictly before `b`.
pub fn str_less(a: &str, b: &str) -> (r: bool)
    ensures
        r == seq_less(a@, b@),
{
    let x = chars_of(a);
    let y = chars_of(b);
    let mut i: usize = 0;
    assert(x@.skip(0) =~= x@);
    assert(y@.skip(0) =~= y@);
    loop
        invariant
            x@ == a@,
            y@ == b@,
            i <= x.len(),
            i <= y.len(),
            seq_less(a@, b@) == seq_less(x@.skip(i as int), y@.skip(i as int)),
        decreases x.len() - i,
    {
        if i == y.len() {
            return false;
        }
        if i == x.len() {
            return true;
        }
        if x[i] != y[i] {
            assert(x@.skip(i as int)[0] == x@[i as int]);
            assert(y@.skip(i as int)[0] == y@[i as int]);
            return x[i] < y[i];
        }
        proof {
            lemma_less_step(x@, y@, i as int);
        }
        i = i + 1;
    }
}

/// Strictly increasing, hence free of repetitions.
pub open spec fn strictly_sorted(s: Seq<Seq<char>>) -> bool {
    forall|i: int, j: int| 0 <= i < j < s.len() ==> seq_less(s[i], s[j])
}

/// Two lists hold the same strings (each possibly several times).
pub open spec fn same_elements(a: Seq<Seq<char>>, b: Seq<Seq<char>>) -> bool {
    forall|x: Seq<char>| a.contains(x) <==> b.contains(x)
}

/// Adds `item` to a strictly sorted list unless a string equal to it is there.
pub fn insert_unique(list: &mut Vec<String>, item: String)
    requires
        strictly_sorted(views(old(list)@)),
    ensures
        strictly_sorted(views(final(list)@)),
        forall|x: Seq<char>|
            views(final(list)@).contains(x) <==> (views(old(list)@).contains(x) || x == item@),
{
    let ghost old_views = views(list@);
    let mut pos: usize = 0;
    while pos < list.len() && str_less(list[pos].as_str(), item.as_str())
        invariant
            list@ == old(list)@,
            pos <= list.len(),
            forall|k: int| 0 <= k < pos ==> seq_less(list@[k]@, item@),
        decreases list.len() - pos,
    {
        pos = pos + 1;
    }
    if pos < list.len() && str_eq(list[pos].as_str(), item.as_str()) {
        assert(old_views[pos as int] == item@);
        return;
    }
    proof {
        if pos < list.len() {
            lemma_less_total(list@[pos as int]@, item@);
            assert(seq_less(item@, list@[pos as int]@));
            assert forall|k: int| pos < k < list.len() implies seq_less(item@, list@[k]@) by {
                assert(seq_less(old_views[pos as int], old_views[k]));
                lemma_less_transitive(item@, list@[pos as int]@, list@[k]@);
            }
        }
    }
    let ghost it = item@;
    list.insert(pos, item);
    let ghost new_views = views(list@);
    assert(new_views =~= old_views.insert(pos as int, it));
    assert forall|i: int, j: int| 0 <= i < j < new_views.len() implies seq_less(
        new_views[i],
        new_views[j],
    ) by {
        if j < pos {
        } else if j == pos {
            assert(old_views[i] == old(list)@[i]@);
        } else if i == pos {
            assert(old_views[j - 1] == old(list)@[j - 1]@);
        } else if i < pos {
            assert(seq_less(old_views[i], it));
            assert(seq_less(it, old_views[j - 1]));
            lemma_less_transitive(old_views[i], it, old_views[j - 1]);
        } else {
        }
    }
    assert forall|x: Seq<char>| new_views.contains(x) <==> (old_views.contains(x) || x == it) by {
        if new_views.contains(x) {
            let k = choose|k: int| 0 <= k < new_views.len() && new_views[k] == x;
            if k < pos {
                assert(old_views[k] == x);
            } else if k > pos {
                assert(old_views[k - 1] == x);
            }
        }
        if old_views.contains(x) {
            let k = choose|k: int| 0 <= k < old_views.len() && old_views[k] == x;
            if k < pos {
                assert(new_views[k] == x);
            } else {
                assert(new_views[k + 1] == x);
            }
        }
        if x == it {
            assert(new_views[pos as int] == x);
        }
    }
}

/// The strings of `items` in increasing order, each once (what `sort` then
/// `dedup` give).
pub fn sorted_unique(items: Vec<String>) -> (res: Vec<String>)
    ensures
        strictly_sorted(views(res@)),
        same_elements(views(res@), views(items@)),
{
    let mut res: Vec<String> = Vec::new();
    let mut rest = items;
    let ghost all = views(rest@);
    let mut taken: usize = 0;
    assert(all.len() == rest.len());
    while rest.len() > 0
        invariant
            strictly_sorted(views(res@)),
            views(rest@) == all.take(all.len() - taken),
            taken <= all.len(),
            all.len() <= usize::MAX,
            forall|x: Seq<char>|
                views(res@).contains(x) <==> all.skip(all.len() - taken).contains(x),
        decreases rest.len(),
    {
        let ghost before = all.skip(all.len() - taken);
        assert(views(rest@).len() == rest@.len());
        let ghost last = rest@.len() - 1;
        assert(views(rest@)[last] == all[last]);
        let item = rest.pop().unwrap();
        proof {
            assert(item@ == all[all.len() - taken - 1]);
        }
        insert_unique(&mut res, item);
        taken = taken + 1;
        proof {
            let now = all.skip(all.len() - taken);
            assert(now =~= seq![all[all.len() - taken]] + before);
            assert(views(rest@) =~= all.take(all.len() - taken));
            assert forall|x: Seq<char>| now.contains(x) <==> (before.contains(x) || x == item@) by {
                if now.contains(x) {
                    let k = choose|k: int| 0 <= k < now.len() && now[k] == x;
                    if k > 0 {
                        assert(before[k - 1] == x);
                    }
                }
                if before.contains(x) {
                    let k = choose|k: int| 0 <= k < before.len() && before[k] == x;
                    assert(now[k + 1] == x);
                }
                if x == item@ {
                    assert(now[0] == x);
                }
            }
        }
    }
    assert(all.skip(0) =~= all);
    res
}


/// A list of strings in increasing order without repetition is determined by
/// the strings it holds: sorting then removing repetitions has one outcome.
pub proof fn law_sorted_unique_is_canonical(a: Seq<Seq<char>>, b: Seq<Seq<char>>)
    requires
        strictly_sorted(a),
        strictly_sorted(b),
        same_elements(a, b),
    ensures
        a == b,
    decreases a.len(),
{
    if a.len() == 0 {
        if b.len() > 0 {
            assert(b.contains(b[0]));
        }
        assert(a =~= b);
    } else {
        assert(a.contains(a[0]));
        assert(b.len() > 0);
        assert(b.contains(b[0]));
        let k = choose|k: int| 0 <= k < b.len() && b[k] == a[0];
        let m = choose|m: int| 0 <= m < a.len() && a[m] == b[0];
        if k > 0 {
            assert(seq_less(b[0], b[k]));
            if m > 0 {
                assert(seq_less(a[0], a[m]));
                lemma_less_total(a[0], b[0]);
            } else {
                lemma_less_irreflexive(b[0]);
            }
        }
        assert(a[0] == b[0]);
        let a1 = a.drop_first();
        let b1 = b.drop_first();
        assert forall|x: Seq<char>| a1.contains(x) <==> b1.contains(x) by {
            if a1.contains(x) {
                let i = choose|i: int| 0 <= i < a1.len() && a1[i] == x;
                assert(a[i + 1] == x);
                assert(b.contains(x));
                let j = choose|j: int| 0 <= j < b.len() && b[j] == x;
                if j == 0 {
                    assert(seq_less(a[0], a[i + 1]));
                    lemma_less_irreflexive(x);
                }
                assert(b1[j - 1] == x);
            }
            if b1.contains(x) {
                let i = choose|i: int| 0 <= i < b1.len() && b1[i] == x;
                assert(b[i + 1] == x);
                assert(a.contains(x));
                let j = choose|j: int| 0 <= j < a.len() && a[j] == x;
                if j == 0 {
                    assert(seq_less(b[0], b[i + 1]));
                    lemma_less_irreflexive(x);
                }
                assert(a1[j - 1] == x);
            }
        }
        law_sorted_unique_is_canonical(a1, b1);
        assert(a =~= seq![a[0]] + a1);
        assert(b =~= seq![b[0]] + b1);
    }
}

// ---------------------------------------------------------------------------
// Trimming (`str::trim`)
// ---------------------------------------------------------------------------
/// Number of leading white-space characters.
pub open spec fn leading_space(s: Seq<char>) -> nat
    decreases s.len(),
{
    if s.len() > 0 && is_white_space(s[0]) {
        1 + leading_space(s.drop_first())
    } else {
        0
    }
}

/// Number of trailing white-space characters.
pub open spec fn trailing_space(s: Seq<char>) -> nat
    decreases s.len(),
{
    if s.len() > 0 && is_white_space(s.last()) {
        1 + trailing_space(s.drop_last())
    } else {
        0
    }
}

/// `s` without leading and trailing white space.
pub open spec fn trimmed(s: Seq<char>) -> Seq<char> {
    let t = s.skip(leading_space(s) as int);
    t.take(t.len() - trailing_space(t))
}

pub proof fn lemma_leading_space(s: Seq<char>, i: int)
    requires
        0 <= i <= s.len(),
        forall|k: int| 0 <= k < i ==> is_white_space(s[k]),
        i == s.len() || !is_white_space(s[i]),
    ensures
        leading_space(s) == i,
    decreases i,
{
    if i > 0 {
        lemma_leading_space(s.drop_first(), i - 1);
    }
}

pub proof fn lemma_trailing_space(s: Seq<char>, j: int)
    requires
        0 <= j <= s.len(),
        forall|k: int| j <= k < s.len() ==> is_white_space(s[k]),
        j == 0 || !is_white_space(s[j - 1]),
    ensures
        trailing_space(s) == s.len() - j,
    decreases s.len() - j,
{
    if j < s.len() {
        lemma_trailing_space(s.drop_last(), j);
    }
}

/// Index of the first character that is not white space (or the length).
fn first_non_space(c: &Vec<char>) -> (i: usize)
    ensures
        i <= c.len(),
        forall|k: int| 0 <= k < i ==> is_white_space(c@[k]),
        i == c.len() || !is_white_space(c@[i as int]),
{
    let mut i: usize = 0;
    while i < c.len() && white_space(c[i])
        invariant
            i <= c.len(),
            forall|k: int| 0 <= k < i ==> is_white_space(c@[k]),
        decreases c.len() - i,
    {
        i = i + 1;
    }
    i
}

/// `s` without leading and trailing white space.
pub fn trim(s: &str) -> (res: String)
    ensures
        res@ == trimmed(s@),
{
    let c = chars_of(s);
    let i = first_non_space(&c);
    let mut j: usize = c.len();
    while j > i && white_space(c[j - 1])
        invariant
            i <= j <= c.len(),
            forall|k: int| j <= k < c.len() ==> is_white_space(c@[k]),
        decreases j,
    {
        j = j - 1;
    }
    proof {
        lemma_leading_space(s@, i as int);
        let t = s@.skip(i as int);
        assert forall|k: int| j - i <= k < t.len() implies is_white_space(t[k]) by {
            assert(t[k] == c@[k + i]);
        }
        if j > i {
            assert(t[j - i - 1] == c@[j - 1]);
        }
        lemma_trailing_space(t, j - i);
        assert(t.take(t.len() - trailing_space(t)) =~= s@.subrange(i as int, j as int));
    }
    s.substring_char(i, j).to_owned()
}

} // verus!
