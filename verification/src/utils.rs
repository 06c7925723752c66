use vstd::prelude::*;

use crate::chars::{
    case_eq, case_fixed, chars_to_string, is_space, lemma_upper_hits_fixed, lemma_upper_keeps_space,
    lower_chars, lower_seq, str_to_chars, to_upper, upper_char, upper_seq,
};

verus! {

// ---------------------------------------------------------------------------
// Cleaning one source line: drop the comment, drop commas, split on spaces,
// trim each fragment, keep the non-empty fragments.
// ---------------------------------------------------------------------------

/// Number of characters of `s` that stand before the first `stop`.
pub open spec fn prefix_len(s: Seq<char>, stop: char) -> nat
    decreases s.len(),
{
    if s.len() == 0 {
        0
    } else if s[0] == stop {
        0
    } else {
        1 + prefix_len(s.drop_first(), stop)
    }
}

/// The part of `s` before the first `stop` character.
pub open spec fn before_char(s: Seq<char>, stop: char) -> Seq<char> {
    s.take(prefix_len(s, stop) as int)
}

/// The part of a line before its comment.
pub open spec fn strip_comment(s: Seq<char>) -> Seq<char> {
    before_char(s, ';')
}

/// `s` with every occurrence of the character `c` removed.
pub open spec fn remove_char(s: Seq<char>, c: char) -> Seq<char>
    decreases s.len(),
{
    if s.len() == 0 {
        Seq::empty()
    } else if s.last() == c {
        remove_char(s.drop_last(), c)
    } else {
        remove_char(s.drop_last(), c).push(s.last())
    }
}

/// Whether the character `c` stands somewhere in `s`.
pub open spec fn contains_char(s: Seq<char>, c: char) -> bool {
    exists|i: int| 0 <= i < s.len() && s[i] == c
}

/// `s` split on single occurrences of the separator `sep`; n separators
/// yield n + 1 fragments.
pub open spec fn split_char(s: Seq<char>, sep: char) -> Seq<Seq<char>>
    decreases s.len(),
{
    if s.len() == 0 {
        seq![Seq::<char>::empty()]
    } else if s.last() == sep {
        split_char(s.drop_last(), sep).push(Seq::empty())
    } else {
        let pre = split_char(s.drop_last(), sep);
        pre.drop_last().push(pre.last().push(s.last()))
    }
}

/// `s` without its leading blank characters.
pub open spec fn trim_start(s: Seq<char>) -> Seq<char>
    decreases s.len(),
{
    if s.len() > 0 && is_space(s[0]) {
        trim_start(s.drop_first())
    } else {
        s
    }
}

/// `s` without its trailing blank characters.
pub open spec fn trim_end(s: Seq<char>) -> Seq<char>
    decreases s.len(),
{
    if s.len() > 0 && is_space(s.last()) {
        trim_end(s.drop_last())
    } else {
        s
    }
}

/// `s` without leading and trailing blank characters.
pub open spec fn trim(s: Seq<char>) -> Seq<char> {
    trim_end(trim_start(s))
}

/// The fragments of `frags` that are non-empty, in order.
pub open spec fn drop_empties(frags: Seq<Seq<char>>) -> Seq<Seq<char>>
    decreases frags.len(),
{
    if frags.len() == 0 {
        Seq::empty()
    } else if frags.last().len() == 0 {
        drop_empties(frags.drop_last())
    } else {
        drop_empties(frags.drop_last()).push(frags.last())
    }
}

/// `s` split on single blank characters; n blanks yield n + 1 fragments.
pub open spec fn split_blanks(s: Seq<char>) -> Seq<Seq<char>>
    decreases s.len(),
{
    if s.len() == 0 {
        seq![Seq::<char>::empty()]
    } else if is_space(s.last()) {
        split_blanks(s.drop_last()).push(Seq::empty())
    } else {
        let pre = split_blanks(s.drop_last());
        pre.drop_last().push(pre.last().push(s.last()))
    }
}

/// The cleaned fragments of one source line.
pub open spec fn clean_frags(line: Seq<char>) -> Seq<Seq<char>> {
    drop_empties(
        split_blanks(remove_char(strip_comment(line), ',')).map_values(|f: Seq<char>| trim(f)),
    )
}

proof fn lemma_prefix_len_at(s: Seq<char>, stop: char, i: int)
    requires
        0 <= i <= s.len(),
        forall|j: int| 0 <= j < i ==> s[j] != stop,
        i == s.len() || s[i] == stop,
    ensures
        prefix_len(s, stop) == i,
    decreases i,
{
    if i == 0 {
    } else {
        assert(s[0] != stop);
        lemma_prefix_len_at(s.drop_first(), stop, i - 1);
    }
}

/// The characters of `v` before the first `stop`.
pub(crate) fn take_until(v: &Vec<char>, stop: char) -> (r: Vec<char>)
    ensures
        r@ == before_char(v@, stop),
{
    let mut i: usize = 0;
    while i < v.len() && v[i] != stop
        invariant
            i <= v@.len(),
            forall|j: int| 0 <= j < i ==> v@[j] != stop,
        decreases v@.len() - i,
    {
        i = i + 1;
    }
    proof {
        lemma_prefix_len_at(v@, stop, i as int);
    }
    let mut r: Vec<char> = Vec::new();
    let mut j: usize = 0;
    while j < i
        invariant
            j <= i <= v@.len(),
            r@ == v@.take(j as int),
        decreases i - j,
    {
        r.push(v[j]);
        j = j + 1;
        assert(r@ =~= v@.take(j as int));
    }
    r
}

pub(crate) fn remove_char_exec(v: &Vec<char>, sep: char) -> (r: Vec<char>)
    ensures
        r@ == remove_char(v@, sep),
{
    let mut r: Vec<char> = Vec::new();
    let mut i: usize = 0;
    while i < v.len()
        invariant
            i <= v@.len(),
            r@ == remove_char(v@.take(i as int), sep),
        decreases v@.len() - i,
    {
        let c = v[i];
        proof {
            assert(v@.take(i as int + 1).drop_last() =~= v@.take(i as int));
            assert(v@.take(i as int + 1).last() == v@[i as int]);
        }
        if c != sep {
            r.push(c);
        }
        i = i + 1;
    }
    proof {
        assert(v@.take(v@.len() as int) =~= v@);
    }
    r
}

pub proof fn lemma_split_char_nonempty(s: Seq<char>, sep: char)
    ensures
        split_char(s, sep).len() >= 1,
    decreases s.len(),
{
    if s.len() > 0 {
        lemma_split_char_nonempty(s.drop_last(), sep);
    }
}

pub(crate) fn split_char_exec(v: &Vec<char>, sep: char) -> (r: Vec<Vec<char>>)
    ensures
        r.deep_view() == split_char(v@, sep),
{
    let mut done: Vec<Vec<char>> = Vec::new();
    let mut cur: Vec<char> = Vec::new();
    let mut i: usize = 0;
    while i < v.len()
        invariant
            i <= v@.len(),
            done.deep_view().push(cur@) == split_char(v@.take(i as int), sep),
        decreases v@.len() - i,
    {
        let c = v[i];
        proof {
            assert(v@.take(i as int + 1).drop_last() =~= v@.take(i as int));
            assert(v@.take(i as int + 1).last() == v@[i as int]);
            lemma_split_char_nonempty(v@.take(i as int), sep);
        }
        if c == sep {
            done.push(cur);
            cur = Vec::new();
            assert(done.deep_view().push(cur@) =~~= split_char(v@.take(i as int + 1), sep));
        } else {
            cur.push(c);
            assert(done.deep_view().push(cur@) =~~= split_char(v@.take(i as int + 1), sep));
        }
        i = i + 1;
    }
    proof {
        assert(v@.take(v@.len() as int) =~= v@);
    }
    done.push(cur);
    assert(done.deep_view() =~~= split_char(v@, sep));
    done
}

proof fn lemma_split_blanks_nonempty(s: Seq<char>)
    ensures
        split_blanks(s).len() >= 1,
    decreases s.len(),
{
    if s.len() > 0 {
        lemma_split_blanks_nonempty(s.drop_last());
    }
}

fn split_blank_chars(v: &Vec<char>) -> (r: Vec<Vec<char>>)
    ensures
        r.deep_view() == split_blanks(v@),
{
    let mut done: Vec<Vec<char>> = Vec::new();
    let mut cur: Vec<char> = Vec::new();
    let mut i: usize = 0;
    while i < v.len()
        invariant
            i <= v@.len(),
            done.deep_view().push(cur@) == split_blanks(v@.take(i as int)),
        decreases v@.len() - i,
    {
        let c = v[i];
        proof {
            assert(v@.take(i as int + 1).drop_last() =~= v@.take(i as int));
            assert(v@.take(i as int + 1).last() == v@[i as int]);
            lemma_split_blanks_nonempty(v@.take(i as int));
        }
        if is_space_exec(c) {
            done.push(cur);
            cur = Vec::new();
            assert(done.deep_view().push(cur@) =~~= split_blanks(v@.take(i as int + 1)));
        } else {
            cur.push(c);
            assert(done.deep_view().push(cur@) =~~= split_blanks(v@.take(i as int + 1)));
        }
        i = i + 1;
    }
    proof {
        assert(v@.take(v@.len() as int) =~= v@);
    }
    done.push(cur);
    assert(done.deep_view() =~~= split_blanks(v@));
    done
}

proof fn lemma_trim_start_at(s: Seq<char>, a: int)
    requires
        0 <= a <= s.len(),
        forall|j: int| 0 <= j < a ==> is_space(s[j]),
        a == s.len() || !is_space(s[a]),
    ensures
        trim_start(s) == s.skip(a),
    decreases a,
{
    if a == 0 {
        assert(s.skip(0) =~= s);
    } else {
        assert(is_space(s[0]));
        lemma_trim_start_at(s.drop_first(), a - 1);
        assert(s.drop_first().skip(a - 1) =~= s.skip(a));
    }
}

proof fn lemma_trim_end_at(s: Seq<char>, b: int)
    requires
        0 <= b <= s.len(),
        forall|j: int| b <= j < s.len() ==> is_space(s[j]),
        b == 0 || !is_space(s[b - 1]),
    ensures
        trim_end(s) == s.take(b),
    decreases s.len(),
{
    if b == s.len() {
        assert(s.take(b) =~= s);
    } else {
        assert(is_space(s.last()));
        lemma_trim_end_at(s.drop_last(), b);
        assert(s.drop_last().take(b) =~= s.take(b));
    }
}

fn trim_chars(v: &Vec<char>) -> (r: Vec<char>)
    ensures
        r@ == trim(v@),
{
    let n = v.len();
    let mut a: usize = 0;
    while a < n && is_space_exec(v[a])
        invariant
            a <= n,
            n == v@.len(),
            forall|j: int| 0 <= j < a ==> is_space(v@[j]),
        decreases n - a,
    {
        a = a + 1;
    }
    proof {
        lemma_trim_start_at(v@, a as int);
    }
    if a == n {
        proof {
            assert(v@.skip(a as int) =~= Seq::<char>::empty());
        }
        let r: Vec<char> = Vec::new();
        return r;
    }
    let mut b: usize = n;
    while b > a + 1 && is_space_exec(v[b - 1])
        invariant
            a < b <= n,
            n == v@.len(),
            forall|j: int| b <= j < n ==> is_space(v@[j]),
        decreases b,
    {
        b = b - 1;
    }
    proof {
        assert(!is_space(v@[a as int]));
        assert(!is_space(v@[b - 1]));
        lemma_trim_end_at(v@.skip(a as int), b as int - a as int);
    }
    let mut r: Vec<char> = Vec::new();
    let mut j: usize = a;
    while j < b
        invariant
            a <= j <= b <= v@.len(),
            r@ == v@.subrange(a as int, j as int),
        decreases b - j,
    {
        r.push(v[j]);
        j = j + 1;
        assert(r@ =~= v@.subrange(a as int, j as int));
    }
    proof {
        assert(v@.skip(a as int).take(b as int - a as int) =~= v@.subrange(a as int, b as int));
    }
    r
}

fn is_space_exec(c: char) -> (r: bool)
    ensures
        r == is_space(c),
{
    c == ' ' || c == '\t' || c == '\r' || c == '\n'
}

/// The cleaned fragments of one line, as character vectors.
#[verifier::loop_isolation(false)]
pub(crate) fn cleanup_frags(v: &Vec<char>) -> (r: Vec<Vec<char>>)
    ensures
        r.deep_view() == clean_frags(v@),
{
    let no_comment = take_until(v, ';');
    let no_commas = remove_char_exec(&no_comment, ',');
    let raw = split_blank_chars(&no_commas);
    let ghost raw_trimmed = raw.deep_view().map_values(|f: Seq<char>| trim(f));
    let mut trimmed: Vec<Vec<char>> = Vec::new();
    let mut i: usize = 0;
    while i < raw.len()
        invariant
            i <= raw@.len(),
            trimmed.deep_view() == raw.deep_view().map_values(|f: Seq<char>| trim(f)).take(
                i as int,
            ),
        decreases raw@.len() - i,
    {
        proof {
            assert(raw.deep_view()[i as int] =~= raw@[i as int]@);
        }
        let ghost pre = trimmed@;
        let t = trim_chars(&raw[i]);
        trimmed.push(t);
        proof {
            assert forall|k: int| 0 <= k < i + 1 implies trimmed.deep_view()[k] == raw_trimmed.take(
                i as int + 1,
            )[k] by {
                if k < i {
                    assert(trimmed@[k] == pre[k]);
                } else {
                    assert(t.deep_view() =~= t@);
                }
            }
            assert(trimmed.deep_view() =~= raw_trimmed.take(i as int + 1));
        }
        i = i + 1;
    }
    proof {
        assert(raw_trimmed.take(raw_trimmed.len() as int) =~~= raw_trimmed);
    }
    let mut r: Vec<Vec<char>> = Vec::new();
    let mut i: usize = 0;
    while i < trimmed.len()
        invariant
            i <= trimmed@.len(),
            r.deep_view() == drop_empties(trimmed.deep_view().take(i as int)),
        decreases trimmed@.len() - i,
    {
        proof {
            assert(trimmed.deep_view().take(i as int + 1).drop_last() =~~= trimmed.deep_view().take(
                i as int,
            ));
            assert(trimmed.deep_view().take(i as int + 1).last() == trimmed.deep_view()[i as int]);
        }
        if trimmed[i].len() > 0 {
            let f = trimmed[i].clone();
            assert(f@ == trimmed.deep_view()[i as int]);
            r.push(f);
        }
        i = i + 1;
    }
    proof {
        assert(trimmed.deep_view().take(trimmed.deep_view().len() as int) =~~= trimmed.deep_view());
    }
    r
}

/// Strips the comment from `line`, removes every comma, splits on spaces,
/// trims each fragment, and hands back the non-empty fragments in order.
#[verifier::loop_isolation(false)]
pub fn cleanup_line(line: &str) -> (r: Vec<String>)
    ensures
        r.deep_view() == clean_frags(line@),
{
    let chars = str_to_chars(line);
    let frags = cleanup_frags(&chars);
    let mut r: Vec<String> = Vec::new();
    let mut i: usize = 0;
    while i < frags.len()
        invariant
            i <= frags@.len(),
            r.deep_view() == frags.deep_view().take(i as int),
        decreases frags@.len() - i,
    {
        proof {
            assert(frags.deep_view()[i as int] =~= frags@[i as int]@);
        }
        let ghost pre = r@;
        let s = chars_to_string(&frags[i]);
        r.push(s);
        proof {
            assert forall|k: int| 0 <= k < i + 1 implies r.deep_view()[k] == frags.deep_view().take(
                i as int + 1,
            )[k] by {
                if k < i {
                    assert(r@[k] == pre[k]);
                }
            }
            assert(r.deep_view() =~= frags.deep_view().take(i as int + 1));
        }
        i = i + 1;
    }
    proof {
        assert(frags.deep_view().take(frags.deep_view().len() as int) =~~= frags.deep_view());
    }
    r
}


// ---------------------------------------------------------------------------
// Upper-casing commutes with every cleanup stage: the separators and
// markers the stages test for are not letters, so case never changes what
// is cut, removed, split or trimmed.
// ---------------------------------------------------------------------------

/// Whether two fragment sequences agree up to letter case, fragment by
/// fragment.
pub open spec fn frags_case_eq(x: Seq<Seq<char>>, y: Seq<Seq<char>>) -> bool {
    x.len() == y.len() && forall|i: int| 0 <= i < x.len() ==> case_eq(x[i], y[i])
}

proof fn lemma_upper_prefix_len(s: Seq<char>, c: char)
    requires
        case_fixed(c),
    ensures
        prefix_len(upper_seq(s), c) == prefix_len(s, c),
        prefix_len(s, c) <= s.len(),
    decreases s.len(),
{
    if s.len() > 0 {
        assert(upper_seq(s)[0] == upper_char(s[0]));
        lemma_upper_hits_fixed(s[0], c);
        assert(upper_seq(s).drop_first() =~= upper_seq(s.drop_first()));
        lemma_upper_prefix_len(s.drop_first(), c);
    }
}

/// Upper-casing commutes with cutting at a case-fixed stop character.
pub proof fn lemma_upper_before_char(s: Seq<char>, c: char)
    requires
        case_fixed(c),
    ensures
        before_char(upper_seq(s), c) == upper_seq(before_char(s, c)),
{
    lemma_upper_prefix_len(s, c);
    assert(upper_seq(s).take(prefix_len(s, c) as int) =~= upper_seq(
        s.take(prefix_len(s, c) as int),
    ));
}

/// Upper-casing commutes with removing a case-fixed character.
pub proof fn lemma_upper_remove_char(s: Seq<char>, c: char)
    requires
        case_fixed(c),
    ensures
        remove_char(upper_seq(s), c) == upper_seq(remove_char(s, c)),
    decreases s.len(),
{
    if s.len() == 0 {
        assert(upper_seq(s) =~= Seq::<char>::empty());
        assert(upper_seq(remove_char(s, c)) =~= Seq::<char>::empty());
    } else {
        let u = upper_seq(s);
        assert(u.last() == upper_char(s.last()));
        lemma_upper_hits_fixed(s.last(), c);
        assert(u.drop_last() =~= upper_seq(s.drop_last()));
        lemma_upper_remove_char(s.drop_last(), c);
        if s.last() != c {
            assert(upper_seq(remove_char(s.drop_last(), c).push(s.last())) =~= upper_seq(
                remove_char(s.drop_last(), c),
            ).push(upper_char(s.last())));
        }
    }
}

/// Upper-casing commutes with splitting on blanks.
pub proof fn lemma_upper_split_blanks(s: Seq<char>)
    ensures
        split_blanks(upper_seq(s)) == split_blanks(s).map_values(|f: Seq<char>| upper_seq(f)),
    decreases s.len(),
{
    let m = |f: Seq<char>| upper_seq(f);
    if s.len() == 0 {
        assert(upper_seq(s) =~= Seq::<char>::empty());
        assert(upper_seq(Seq::<char>::empty()) =~= Seq::<char>::empty());
        assert(split_blanks(upper_seq(s)) =~~= split_blanks(s).map_values(m));
    } else {
        let u = upper_seq(s);
        assert(u.last() == upper_char(s.last()));
        lemma_upper_keeps_space(s.last());
        assert(u.drop_last() =~= upper_seq(s.drop_last()));
        lemma_upper_split_blanks(s.drop_last());
        lemma_split_blanks_nonempty(s.drop_last());
        let pre = split_blanks(s.drop_last());
        let pre_u = split_blanks(upper_seq(s.drop_last()));
        if is_space(s.last()) {
            assert(upper_seq(Seq::<char>::empty()) =~= Seq::<char>::empty());
            assert(pre_u.push(Seq::<char>::empty()) =~~= pre.push(Seq::<char>::empty()).map_values(
                m,
            ));
        } else {
            assert(pre_u.last() == upper_seq(pre.last()));
            assert(upper_seq(pre.last().push(s.last())) =~= upper_seq(pre.last()).push(
                upper_char(s.last()),
            ));
            assert(pre_u.drop_last().push(pre_u.last().push(u.last())) =~~= pre.drop_last().push(
                pre.last().push(s.last()),
            ).map_values(m));
        }
    }
}

/// Upper-casing commutes with splitting on a case-fixed separator.
pub proof fn lemma_upper_split_char(s: Seq<char>, sep: char)
    requires
        case_fixed(sep),
    ensures
        split_char(upper_seq(s), sep) == split_char(s, sep).map_values(|f: Seq<char>| upper_seq(f)),
    decreases s.len(),
{
    let m = |f: Seq<char>| upper_seq(f);
    if s.len() == 0 {
        assert(upper_seq(s) =~= Seq::<char>::empty());
        assert(upper_seq(Seq::<char>::empty()) =~= Seq::<char>::empty());
        assert(split_char(upper_seq(s), sep) =~~= split_char(s, sep).map_values(m));
    } else {
        let u = upper_seq(s);
        assert(u.last() == upper_char(s.last()));
        lemma_upper_hits_fixed(s.last(), sep);
        assert(u.drop_last() =~= upper_seq(s.drop_last()));
        lemma_upper_split_char(s.drop_last(), sep);
        lemma_split_char_nonempty(s.drop_last(), sep);
        let pre = split_char(s.drop_last(), sep);
        let pre_u = split_char(upper_seq(s.drop_last()), sep);
        if s.last() == sep {
            assert(upper_seq(Seq::<char>::empty()) =~= Seq::<char>::empty());
            assert(pre_u.push(Seq::<char>::empty()) =~~= pre.push(Seq::<char>::empty()).map_values(
                m,
            ));
        } else {
            assert(pre_u.last() == upper_seq(pre.last()));
            assert(upper_seq(pre.last().push(s.last())) =~= upper_seq(pre.last()).push(
                upper_char(s.last()),
            ));
            assert(pre_u.drop_last().push(pre_u.last().push(u.last())) =~~= pre.drop_last().push(
                pre.last().push(s.last()),
            ).map_values(m));
        }
    }
}

proof fn lemma_upper_trim_start(s: Seq<char>)
    ensures
        trim_start(upper_seq(s)) == upper_seq(trim_start(s)),
    decreases s.len(),
{
    if s.len() > 0 {
        assert(upper_seq(s)[0] == upper_char(s[0]));
        lemma_upper_keeps_space(s[0]);
        if is_space(s[0]) {
            assert(upper_seq(s).drop_first() =~= upper_seq(s.drop_first()));
            lemma_upper_trim_start(s.drop_first());
        }
    }
}

proof fn lemma_upper_trim_end(s: Seq<char>)
    ensures
        trim_end(upper_seq(s)) == upper_seq(trim_end(s)),
    decreases s.len(),
{
    if s.len() > 0 {
        assert(upper_seq(s).last() == upper_char(s.last()));
        lemma_upper_keeps_space(s.last());
        if is_space(s.last()) {
            assert(upper_seq(s).drop_last() =~= upper_seq(s.drop_last()));
            lemma_upper_trim_end(s.drop_last());
        }
    }
}

/// Upper-casing commutes with trimming.
pub proof fn lemma_upper_trim(s: Seq<char>)
    ensures
        trim(upper_seq(s)) == upper_seq(trim(s)),
{
    lemma_upper_trim_start(s);
    lemma_upper_trim_end(trim_start(s));
}

/// Upper-casing commutes with dropping the empty fragments.
pub proof fn lemma_upper_drop_empties(fs: Seq<Seq<char>>)
    ensures
        drop_empties(fs.map_values(|f: Seq<char>| upper_seq(f))) == drop_empties(fs).map_values(
            |f: Seq<char>| upper_seq(f),
        ),
    decreases fs.len(),
{
    let m = |f: Seq<char>| upper_seq(f);
    if fs.len() == 0 {
        assert(fs.map_values(m) =~= Seq::<Seq<char>>::empty());
        assert(drop_empties(fs).map_values(m) =~~= Seq::<Seq<char>>::empty());
    } else {
        assert(fs.map_values(m).drop_last() =~= fs.drop_last().map_values(m));
        assert(fs.map_values(m).last() == upper_seq(fs.last()));
        lemma_upper_drop_empties(fs.drop_last());
        if fs.last().len() == 0 {
        } else {
            assert(drop_empties(fs.drop_last()).push(fs.last()).map_values(m) =~~= drop_empties(
                fs.drop_last(),
            ).map_values(m).push(upper_seq(fs.last())));
        }
    }
}

/// Upper-casing a line commutes with the whole cleanup: the fragments of
/// the upper-cased line are the upper-cased fragments of the line.
pub proof fn lemma_upper_clean_frags(line: Seq<char>)
    ensures
        clean_frags(upper_seq(line)) == clean_frags(line).map_values(|f: Seq<char>| upper_seq(f)),
{
    let m = |f: Seq<char>| upper_seq(f);
    lemma_upper_before_char(line, ';');
    lemma_upper_remove_char(strip_comment(line), ',');
    let base = remove_char(strip_comment(line), ',');
    lemma_upper_split_blanks(base);
    let tu = split_blanks(upper_seq(base)).map_values(|f: Seq<char>| trim(f));
    let tt = split_blanks(base).map_values(|f: Seq<char>| trim(f)).map_values(m);
    assert forall|i: int| 0 <= i < split_blanks(base).len() implies (#[trigger] tu[i]) == tt[i] by {
        lemma_upper_trim(split_blanks(base)[i]);
    }
    assert(tu =~~= tt);
    lemma_upper_drop_empties(split_blanks(base).map_values(|f: Seq<char>| trim(f)));
}

/// Lines equal up to case clean to fragments equal up to case.
pub proof fn lemma_clean_frags_case_eq(l1: Seq<char>, l2: Seq<char>)
    requires
        case_eq(l1, l2),
    ensures
        frags_case_eq(clean_frags(l1), clean_frags(l2)),
{
    let m = |f: Seq<char>| upper_seq(f);
    lemma_upper_clean_frags(l1);
    lemma_upper_clean_frags(l2);
    assert(clean_frags(l1).map_values(m) == clean_frags(l2).map_values(m));
    assert forall|i: int| 0 <= i < clean_frags(l1).len() implies case_eq(
        clean_frags(l1)[i],
        clean_frags(l2)[i],
    ) by {
        assert(clean_frags(l1).map_values(m)[i] == upper_seq(clean_frags(l1)[i]));
        assert(clean_frags(l2).map_values(m)[i] == upper_seq(clean_frags(l2)[i]));
    }
}

/// A case-fixed character stands in one of two case-equal texts exactly
/// when it stands in the other.
pub proof fn lemma_contains_char_case_eq(a: Seq<char>, b: Seq<char>, c: char)
    requires
        case_eq(a, b),
        case_fixed(c),
    ensures
        contains_char(a, c) == contains_char(b, c),
{
    assert(upper_seq(a).len() == a.len());
    assert(upper_seq(b).len() == b.len());
    assert forall|i: int| 0 <= i < a.len() implies (a[i] == c) == (b[i] == c) by {
        assert(upper_seq(a)[i] == upper_char(a[i]));
        assert(upper_seq(b)[i] == upper_char(b[i]));
        lemma_upper_hits_fixed(a[i], c);
        lemma_upper_hits_fixed(b[i], c);
    }
    if contains_char(a, c) {
        let i = choose|i: int| 0 <= i < a.len() && a[i] == c;
        assert(b[i] == c);
    }
    if contains_char(b, c) {
        let i = choose|i: int| 0 <= i < b.len() && b[i] == c;
        assert(a[i] == c);
    }
}

// ---------------------------------------------------------------------------
// Numeric literals: hexadecimal (`0x`), binary (`0b`) and decimal, with the
// same acceptance rules as `u32::from_str_radix`.
// ---------------------------------------------------------------------------

/// The numeric value of a digit character, up to base sixteen.
pub open spec fn digit_val(c: char) -> Option<u32> {
    match c {
        '0' => Some(0),
        '1' => Some(1),
        '2' => Some(2),
        '3' => Some(3),
        '4' => Some(4),
        '5' => Some(5),
        '6' => Some(6),
        '7' => Some(7),
        '8' => Some(8),
        '9' => Some(9),
        'a' => Some(10),
        'b' => Some(11),
        'c' => Some(12),
        'd' => Some(13),
        'e' => Some(14),
        'f' => Some(15),
        'A' => Some(10),
        'B' => Some(11),
        'C' => Some(12),
        'D' => Some(13),
        'E' => Some(14),
        'F' => Some(15),
        _ => None,
    }
}

pub open spec fn digit_ok(c: char, radix: u32) -> bool {
    match digit_val(c) {
        Some(d) => d < radix,
        None => false,
    }
}

pub open spec fn digit_or_zero(c: char) -> u32 {
    match digit_val(c) {
        Some(d) => d,
        None => 0,
    }
}

pub open spec fn digits_ok(s: Seq<char>, radix: u32) -> bool {
    forall|i: int| 0 <= i < s.len() ==> digit_ok(s[i], radix)
}

/// The value of a digit string read most-significant first.
pub open spec fn digits_val(s: Seq<char>, radix: u32) -> nat
    decreases s.len(),
{
    if s.len() == 0 {
        0
    } else {
        digits_val(s.drop_last(), radix) * (radix as nat) + (digit_or_zero(s.last()) as nat)
    }
}

/// A non-empty all-digit string below the overflow bound, or nothing.
pub open spec fn parse_digits(s: Seq<char>, radix: u32) -> Option<u32> {
    if s.len() > 0 && digits_ok(s, radix) && digits_val(s, radix) <= u32::MAX {
        Some(digits_val(s, radix) as u32)
    } else {
        None
    }
}

/// A digit string with an optional single leading sign; a minus sign is
/// accepted only when the value is zero.
pub open spec fn parse_u32_radix(s: Seq<char>, radix: u32) -> Option<u32> {
    if s.len() >= 1 && s[0] == '+' {
        parse_digits(s.drop_first(), radix)
    } else if s.len() >= 1 && s[0] == '-' {
        if s.len() >= 2 && digits_ok(s.drop_first(), radix) && digits_val(s.drop_first(), radix)
            == 0 {
            Some(0)
        } else {
            None
        }
    } else {
        parse_digits(s, radix)
    }
}

/// The value of a numeric fragment: lower-cased, then read as hexadecimal
/// after a `0x` prefix, as binary after a `0b` prefix, and as decimal
/// otherwise.
pub open spec fn spec_string_to_u32(s: Seq<char>) -> Option<u32> {
    let low = lower_seq(s);
    if low.len() >= 2 && low[0] == '0' && low[1] == 'x' {
        parse_u32_radix(low.skip(2), 16)
    } else if low.len() >= 2 && low[0] == '0' && low[1] == 'b' {
        parse_u32_radix(low.skip(2), 2)
    } else {
        parse_u32_radix(low, 10)
    }
}

fn digit_of(c: char) -> (r: Option<u32>)
    ensures
        r == digit_val(c),
{
    match c {
        '0' => Some(0),
        '1' => Some(1),
        '2' => Some(2),
        '3' => Some(3),
        '4' => Some(4),
        '5' => Some(5),
        '6' => Some(6),
        '7' => Some(7),
        '8' => Some(8),
        '9' => Some(9),
        'a' => Some(10),
        'b' => Some(11),
        'c' => Some(12),
        'd' => Some(13),
        'e' => Some(14),
        'f' => Some(15),
        'A' => Some(10),
        'B' => Some(11),
        'C' => Some(12),
        'D' => Some(13),
        'E' => Some(14),
        'F' => Some(15),
        _ => None,
    }
}

proof fn lemma_digits_val_grows(s: Seq<char>, radix: u32, i: int)
    requires
        1 <= radix,
        0 <= i <= s.len(),
    ensures
        digits_val(s.take(i), radix) <= digits_val(s, radix),
    decreases s.len() - i,
{
    if i < s.len() {
        lemma_digits_val_grows(s, radix, i + 1);
        assert(s.take(i + 1).drop_last() =~= s.take(i));
        let v = digits_val(s.take(i), radix);
        assert(v * (radix as nat) >= v * 1) by (nonlinear_arith)
            requires
                radix >= 1,
        ;
    } else {
        assert(s.take(i) =~= s);
    }
}

#[verifier::loop_isolation(false)]
fn parse_digits_exec(v: &Vec<char>, start: usize, radix: u32) -> (r: Option<u32>)
    requires
        2 <= radix <= 16,
        start <= v@.len(),
    ensures
        r == parse_digits(v@.skip(start as int), radix),
{
    let ghost s = v@.skip(start as int);
    if start == v.len() {
        return None;
    }
    let mut acc: u32 = 0;
    let mut i: usize = start;
    while i < v.len()
        invariant
            start <= i <= v@.len(),
            digits_ok(s.take(i - start), radix),
            acc == digits_val(s.take(i - start), radix),
        decreases v@.len() - i,
    {
        proof {
            assert(s.take(i - start + 1).drop_last() =~= s.take(i - start));
            assert(s.take(i - start + 1).last() == v@[i as int]);
        }
        let d = match digit_of(v[i]) {
            Some(d) => d,
            None => {
                assert(!digit_ok(s[i - start], radix));
                return None;
            },
        };
        if d >= radix {
            assert(!digit_ok(s[i - start], radix));
            return None;
        }
        let m = match acc.checked_mul(radix) {
            Some(m) => m,
            None => {
                proof {
                    lemma_digits_val_grows(s, radix, i - start + 1);
                }
                return None;
            },
        };
        let a = match m.checked_add(d) {
            Some(a) => a,
            None => {
                proof {
                    lemma_digits_val_grows(s, radix, i - start + 1);
                }
                return None;
            },
        };
        acc = a;
        i = i + 1;
    }
    proof {
        assert(s.take(v@.len() - start) =~= s);
    }
    Some(acc)
}

#[verifier::loop_isolation(false)]
fn parse_u32_radix_exec(v: &Vec<char>, radix: u32) -> (r: Option<u32>)
    requires
        2 <= radix <= 16,
    ensures
        r == parse_u32_radix(v@, radix),
{
    if v.len() >= 1 && v[0] == '+' {
        proof {
            assert(v@.skip(1) =~= v@.drop_first());
        }
        parse_digits_exec(v, 1, radix)
    } else if v.len() >= 1 && v[0] == '-' {
        proof {
            assert(v@.skip(1) =~= v@.drop_first());
        }
        match parse_digits_exec(v, 1, radix) {
            Some(x) if x == 0 => Some(0),
            _ => None,
        }
    } else {
        proof {
            assert(v@.skip(0) =~= v@);
        }
        parse_digits_exec(v, 0, radix)
    }
}

/// The characters of `v` from position `k` on.
fn copy_from(v: &Vec<char>, k: usize) -> (r: Vec<char>)
    requires
        k <= v@.len(),
    ensures
        r@ == v@.skip(k as int),
{
    let mut r: Vec<char> = Vec::new();
    let mut j: usize = k;
    while j < v.len()
        invariant
            k <= j <= v@.len(),
            r@ == v@.subrange(k as int, j as int),
        decreases v@.len() - j,
    {
        r.push(v[j]);
        j = j + 1;
        assert(r@ =~= v@.subrange(k as int, j as int));
    }
    proof {
        assert(v@.subrange(k as int, v@.len() as int) =~= v@.skip(k as int));
    }
    r
}

/// Reads a numeric fragment: lower-cases it, then parses it as hexadecimal
/// after a `0x` prefix, as binary after a `0b` prefix, and as decimal
/// otherwise.
pub fn string_to_u32(value: &str) -> (r: Option<u32>)
    ensures
        r == spec_string_to_u32(value@),
{
    let chars = str_to_chars(value);
    string_to_u32_chars(&chars)
}

pub(crate) fn string_to_u32_chars(v: &Vec<char>) -> (r: Option<u32>)
    ensures
        r == spec_string_to_u32(v@),
{
    let low = lower_chars(v);
    if low.len() >= 2 && low[0] == '0' && low[1] == 'x' {
        parse_u32_radix_exec(&copy_from(&low, 2), 16)
    } else if low.len() >= 2 && low[0] == '0' && low[1] == 'b' {
        parse_u32_radix_exec(&copy_from(&low, 2), 2)
    } else {
        parse_u32_radix_exec(&low, 10)
    }
}

/// Whether a fragment announces a hexadecimal or binary literal: lower-
/// cased, it starts with `0x` or `0b`.  A marked fragment that then fails
/// to parse is a malformed literal, never a label; an unmarked one that
/// fails to parse may still be a register or label reference.
pub open spec fn has_numeric_marker(s: Seq<char>) -> bool {
    let low = lower_seq(s);
    low.len() >= 2 && low[0] == '0' && (low[1] == 'x' || low[1] == 'b')
}

pub(crate) fn has_numeric_marker_exec(v: &Vec<char>) -> (r: bool)
    ensures
        r == has_numeric_marker(v@),
{
    let low = lower_chars(v);
    low.len() >= 2 && low[0] == '0' && (low[1] == 'x' || low[1] == 'b')
}

#[verifier::loop_isolation(false)]
pub(crate) fn contains_char_exec(v: &Vec<char>, c: char) -> (r: bool)
    ensures
        r == contains_char(v@, c),
{
    let mut i: usize = 0;
    while i < v.len()
        invariant
            i <= v@.len(),
            forall|j: int| 0 <= j < i ==> v@[j] != c,
        decreases v@.len() - i,
    {
        if v[i] == c {
            return true;
        }
        i = i + 1;
    }
    false
}

// ---------------------------------------------------------------------------
// Registers.
// ---------------------------------------------------------------------------

/// The index of a register letter: `A` through `P` name registers 0 through
/// 15.
pub open spec fn reg_letter_val(c: char) -> Option<u32> {
    match c {
        'A' => Some(0x0),
        'B' => Some(0x1),
        'C' => Some(0x2),
        'D' => Some(0x3),
        'E' => Some(0x4),
        'F' => Some(0x5),
        'G' => Some(0x6),
        'H' => Some(0x7),
        'I' => Some(0x8),
        'J' => Some(0x9),
        'K' => Some(0xA),
        'L' => Some(0xB),
        'M' => Some(0xC),
        'N' => Some(0xD),
        'O' => Some(0xE),
        'P' => Some(0xF),
        _ => None,
    }
}

/// The register index named by a fragment: one letter, upper-cased, mapped
/// through the sixteen-entry register table.
pub open spec fn spec_register_to_byte(s: Seq<char>) -> Option<u32> {
    if s.len() == 1 {
        reg_letter_val(upper_char(s[0]))
    } else {
        None
    }
}

/// Maps a register name, case-insensitively, to its index: `A` through `P`
/// name registers 0 through 15; anything else is refused.
pub fn register_to_byte(reg: &str) -> (r: Option<u32>)
    ensures
        r == spec_register_to_byte(reg@),
{
    let chars = str_to_chars(reg);
    register_to_byte_chars(&chars)
}

pub(crate) fn register_to_byte_chars(v: &Vec<char>) -> (r: Option<u32>)
    ensures
        r == spec_register_to_byte(v@),
{
    if v.len() != 1 {
        return None;
    }
    let c = to_upper(v[0]);
    match c {
        'A' => Some(0x0),
        'B' => Some(0x1),
        'C' => Some(0x2),
        'D' => Some(0x3),
        'E' => Some(0x4),
        'F' => Some(0x5),
        'G' => Some(0x6),
        'H' => Some(0x7),
        'I' => Some(0x8),
        'J' => Some(0x9),
        'K' => Some(0xA),
        'L' => Some(0xB),
        'M' => Some(0xC),
        'N' => Some(0xD),
        'O' => Some(0xE),
        'P' => Some(0xF),
        _ => None,
    }
}

/// Register names are case-insensitive: fragments equal up to case name
/// the same register, or both name none.
pub proof fn lemma_register_case_insensitive(a: Seq<char>, b: Seq<char>)
    requires
        case_eq(a, b),
    ensures
        spec_register_to_byte(a) == spec_register_to_byte(b),
{
    assert(upper_seq(a).len() == a.len());
    assert(upper_seq(b).len() == b.len());
    if a.len() == 1 && b.len() == 1 {
        assert(upper_seq(a)[0] == upper_char(a[0]));
        assert(upper_seq(b)[0] == upper_char(b[0]));
    }
}

/// A raw operand value carried through parsing.
pub struct Parameter {
    pub value: u32,
}

impl Parameter {
    pub fn get_value(&self) -> (r: u32)
        ensures
            r == self.value,
    {
        self.value
    }
}

} // verus!
