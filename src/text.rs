//! Text helpers: carriage-return removal, splitting on a literal delimiter,
//! and joining with a separator.
use vstd::prelude::*;

verus! {

/// The carriage-return character, removed by [`remove_carriage_return`].
pub const CARRIAGE_RETURN: char = '\r';

/// `s` with every carriage return removed and every other character kept in order.
pub open spec fn normalized(s: Seq<char>) -> Seq<char> {
    s.filter(|c: char| c != CARRIAGE_RETURN)
}

/// The characters of `s` in order.
pub(crate) fn chars_of(s: &str) -> (r: Vec<char>)
    ensures
        r@ == s@,
{
    let mut out: Vec<char> = Vec::new();
    for c in it: s.chars()
        invariant
            out@ == it.history(),
            it.seq() == s@,
    {
        out.push(c);
    }
    out
}

/// Relies on `String::push`: appends one character.
#[verifier::external_body]
pub(crate) fn push_char(s: &mut String, c: char)
    ensures
        final(s)@ == old(s)@.push(c),
{
    s.push(c)
}

/// Removes every carriage-return character from `text`, so that output written
/// with either line-ending convention compares equal.
pub fn remove_carriage_return(text: String) -> (r: String)
    ensures
        r@ == normalized(text@),
{
    let cs = chars_of(text.as_str());
    let mut out = String::new();
    let mut i: usize = 0;
    while i < cs.len()
        invariant
            i <= cs@.len(),
            cs@ == text@,
            out@ == normalized(cs@.subrange(0, i as int)),
        decreases cs@.len() - i,
    {
        let c = cs[i];
        proof {
            let pre = cs@.subrange(0, i as int);
            assert(cs@.subrange(0, i + 1) =~= pre.push(c));
            pre.lemma_filter_push(c, |c: char| c != CARRIAGE_RETURN);
        }
        if c != CARRIAGE_RETURN {
            push_char(&mut out, c);
        }
        i = i + 1;
    }
    assert(cs@.subrange(0, cs@.len() as int) =~= cs@);
    out
}

/// Normalizing is idempotent, and what it returns holds no carriage return.
pub proof fn lemma_normalize_idempotent(s: Seq<char>)
    ensures
        normalized(normalized(s)) == normalized(s),
        !normalized(s).contains(CARRIAGE_RETURN),
    decreases s.len(),
{
    if s.len() == 0 {
        reveal(Seq::filter);
    } else {
        let init = s.drop_last();
        let c = s.last();
        assert(init.push(c) =~= s);
        lemma_normalize_idempotent(init);
        init.lemma_filter_push(c, |c: char| c != CARRIAGE_RETURN);
        if c != CARRIAGE_RETURN {
            normalized(init).lemma_filter_push(c, |c: char| c != CARRIAGE_RETURN);
            assert(normalized(s).last() == c);
            assert(normalized(s).drop_last() =~= normalized(init));
            assert forall|k: int| 0 <= k < normalized(s).len() implies normalized(s)[k]
                != CARRIAGE_RETURN by {
                if k < normalized(init).len() {
                    assert(normalized(s)[k] == normalized(init)[k]);
                }
            }
        }
    }
}

/// Whether `d` occurs in `t` at position `i`.
pub open spec fn occurs_at(t: Seq<char>, d: Seq<char>, i: int) -> bool {
    0 <= i && i + d.len() <= t.len() && t.subrange(i, i + d.len()) == d
}

/// The pieces of `t` between the non-overlapping occurrences of the non-empty
/// delimiter `d`, taken from the left. With no occurrence, `t` is the only piece.
pub open spec fn split_on(t: Seq<char>, d: Seq<char>) -> Seq<Seq<char>>
    recommends
        d.len() > 0,
    decreases t.len(),
{
    if t.len() == 0 || d.len() == 0 {
        seq![t]
    } else if occurs_at(t, d, 0) {
        seq![Seq::<char>::empty()].add(split_on(t.subrange(d.len() as int, t.len() as int), d))
    } else {
        let rest = split_on(t.drop_first(), d);
        rest.update(0, seq![t[0]] + rest[0])
    }
}

/// The pieces of `t` when the delimiter is empty: an empty piece, then each
/// character on its own, then an empty piece.
pub open spec fn split_on_empty(t: Seq<char>) -> Seq<Seq<char>> {
    seq![Seq::<char>::empty()] + t.map_values(|c: char| seq![c]) + seq![Seq::<char>::empty()]
}

/// The pieces of `t` split on the literal delimiter `d`.
pub open spec fn split_spec(t: Seq<char>, d: Seq<char>) -> Seq<Seq<char>> {
    if d.len() == 0 {
        split_on_empty(t)
    } else {
        split_on(t, d)
    }
}

/// The views of a vector of strings.
pub open spec fn views(v: Seq<String>) -> Seq<Seq<char>> {
    v.map_values(|s: String| s@)
}

proof fn lemma_split_on_nonempty(t: Seq<char>, d: Seq<char>)
    requires
        d.len() > 0,
    ensures
        split_on(t, d).len() >= 1,
    decreases t.len(),
{
    if t.len() > 0 {
        if occurs_at(t, d, 0) {
            lemma_split_on_nonempty(t.subrange(d.len() as int, t.len() as int), d);
        } else {
            lemma_split_on_nonempty(t.drop_first(), d);
        }
    }
}

/// Splitting the empty text on a non-empty delimiter gives exactly one piece,
/// the empty text.
pub proof fn lemma_split_empty_text(d: Seq<char>)
    requires
        d.len() > 0,
    ensures
        split_spec(Seq::empty(), d) == seq![Seq::<char>::empty()],
{
}

/// Whether `d` occurs in `t` at `i`, checked character by character.
fn matches_at(t: &Vec<char>, d: &Vec<char>, i: usize) -> (r: bool)
    requires
        i <= t@.len(),
    ensures
        r == occurs_at(t@, d@, i as int),
{
    if d.len() > t.len() - i {
        return false;
    }
    let n = t.len();
    let mut j: usize = 0;
    while j < d.len()
        invariant
            n == t@.len(),
            i + d@.len() <= t@.len(),
            j <= d@.len(),
            forall|k: int| 0 <= k < j ==> t@[i + k] == d@[k],
        decreases d@.len() - j,
    {
        if t[i + j] != d[j] {
            assert(t@.subrange(i as int, i + d@.len())[j as int] != d@[j as int]);
            return false;
        }
        j = j + 1;
    }
    assert(t@.subrange(i as int, i + d@.len()) =~= d@);
    true
}

/// A string holding the characters `cs[from..to]`.
fn string_of_range(cs: &Vec<char>, from: usize, to: usize) -> (r: String)
    requires
        from <= to <= cs@.len(),
    ensures
        r@ == cs@.subrange(from as int, to as int),
{
    let mut out = String::new();
    let mut k: usize = from;
    while k < to
        invariant
            from <= k <= to <= cs@.len(),
            out@ == cs@.subrange(from as int, k as int),
        decreases to - k,
    {
        push_char(&mut out, cs[k]);
        assert(cs@.subrange(from as int, k + 1) =~= cs@.subrange(from as int, k as int).push(cs@[k as int]));
        k = k + 1;
    }
    out
}

/// Splits `text` on every literal occurrence of `delimiter`, from the left and
/// without overlap. Nothing is trimmed; the empty text gives one empty piece.
/// An empty delimiter gives an empty piece, each character alone, and an empty piece.
pub fn split(text: &str, delimiter: &str) -> (r: Vec<String>)
    ensures
        views(r@) == split_spec(text@, delimiter@),
{
    let t = chars_of(text);
    let d = chars_of(delimiter);
    let mut done: Vec<String> = Vec::new();
    if d.len() == 0 {
        done.push(String::new());
        let mut i: usize = 0;
        while i < t.len()
            invariant
                i <= t@.len(),
                t@ == text@,
                views(done@) =~= seq![Seq::<char>::empty()] + t@.subrange(0, i as int).map_values(|c: char| seq![c]),
            decreases t@.len() - i,
        {
            let one = string_of_range(&t, i, i + 1);
            let ghost done0 = done@;
            done.push(one);
            assert(views(done@) =~= views(done0).push(one@));
            assert(t@.subrange(0, i + 1) =~= t@.subrange(0, i as int).push(t@[i as int]));
            assert(one@ =~= seq![t@[i as int]]);
            i = i + 1;
        }
        done.push(String::new());
        assert(t@.subrange(0, t@.len() as int) =~= t@);
        assert(views(done@) =~= split_spec(text@, delimiter@));
        return done;
    }
    let mut start: usize = 0;
    let mut i: usize = 0;
    proof {
        lemma_split_on_nonempty(t@, d@);
        assert(t@.subrange(0, t@.len() as int) =~= t@);
        assert(t@.subrange(0, 0) + split_on(t@, d@)[0] =~= split_on(t@, d@)[0]);
        assert(split_on(t@, d@) =~= seq![split_on(t@, d@)[0]] + split_on(t@, d@).drop_first());
    }
    while i < t.len()
        invariant
            start <= i <= t@.len(),
            t@ == text@,
            d@ == delimiter@,
            d@.len() > 0,
            split_on(t@, d@) == views(done@) + seq![t@.subrange(start as int, i as int) + split_on(t@.subrange(i as int, t@.len() as int), d@)[0]]
                + split_on(t@.subrange(i as int, t@.len() as int), d@).drop_first(),
        decreases t@.len() - i,
    {
        let ghost rest = t@.subrange(i as int, t@.len() as int);
        proof {
            lemma_split_on_nonempty(rest, d@);
        }
        if matches_at(&t, &d, i) {
            let piece = string_of_range(&t, start, i);
            let ghost after = t@.subrange(i + d@.len(), t@.len() as int);
            proof {
                assert(rest.subrange(0, d@.len() as int) =~= t@.subrange(i as int, i + d@.len()));
                assert(rest.subrange(d@.len() as int, rest.len() as int) =~= after);
                assert(split_on(rest, d@) == seq![Seq::<char>::empty()].add(split_on(after, d@)));
                lemma_split_on_nonempty(after, d@);
                assert(t@.subrange(i + d@.len(), i + d@.len()) + split_on(after, d@)[0] =~= split_on(after, d@)[0]);
                assert(t@.subrange(start as int, i as int) + Seq::<char>::empty() =~= t@.subrange(start as int, i as int));
            }
            let ghost done0 = done@;
            done.push(piece);
            i = i + d.len();
            start = i;
            assert(views(done@) =~= views(done0).push(piece@));
        } else {
            proof {
                let next = t@.subrange(i + 1, t@.len() as int);
                if i + d@.len() <= t@.len() {
                    assert(rest.subrange(0, d@.len() as int) =~= t@.subrange(i as int, i + d@.len()));
                }
                assert(!occurs_at(rest, d@, 0));
                assert(rest.drop_first() =~= next);
                assert(rest[0] == t@[i as int]);
                lemma_split_on_nonempty(next, d@);
                assert(t@.subrange(start as int, i + 1) =~= t@.subrange(start as int, i as int).push(t@[i as int]));
                assert(t@.subrange(start as int, i as int) + split_on(rest, d@)[0] =~= t@.subrange(start as int, i + 1) + split_on(next, d@)[0]);
                assert(split_on(rest, d@).drop_first() =~= split_on(next, d@).drop_first());
            }
            i = i + 1;
        }
    }
    let last = string_of_range(&t, start, i);
    proof {
        assert(t@.subrange(i as int, t@.len() as int) =~= Seq::<char>::empty());
        assert(last@ + Seq::<char>::empty() =~= last@);
    }
    let ghost done0 = done@;
    done.push(last);
    assert(views(done@) =~= views(done0).push(last@));
    assert(views(done@) =~= split_on(t@, d@));
    done
}

/// The pieces joined in order, with `sep` between each two neighbours.
pub open spec fn joined(pieces: Seq<Seq<char>>, sep: Seq<char>) -> Seq<char>
    decreases pieces.len(),
{
    if pieces.len() == 0 {
        Seq::empty()
    } else if pieces.len() == 1 {
        pieces[0]
    } else {
        joined(pieces.drop_last(), sep) + sep + pieces.last()
    }
}

/// Joins `parts` in order with `sep` between each two neighbours.
pub fn join(parts: &Vec<String>, sep: &str) -> (r: String)
    ensures
        r@ == joined(views(parts@), sep@),
{
    let mut out = String::new();
    let mut i: usize = 0;
    while i < parts.len()
        invariant
            i <= parts@.len(),
            out@ == joined(views(parts@.subrange(0, i as int)), sep@),
        decreases parts@.len() - i,
    {
        let ghost pre = views(parts@.subrange(0, i as int));
        let ghost now = views(parts@.subrange(0, i + 1));
        assert(now.drop_last() =~= pre);
        if i > 0 {
            out.append(sep);
        } else {
            assert(out@ + parts@[0]@ =~= parts@[0]@);
        }
        out.append(parts[i].as_str());
        i = i + 1;
    }
    assert(parts@.subrange(0, parts@.len() as int) =~= parts@);
    out
}

} // verus!
