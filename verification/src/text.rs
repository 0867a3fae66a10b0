//! Character-level text utilities: conversions between strings and character
//! vectors, whitespace classification, field splitting and decimal numbers.

use vstd::prelude::*;

verus! {

/// Whether `c` has the Unicode `White_Space` property.
pub open spec fn is_space(c: char) -> bool {
    let u = c as u32;
    (0x09 <= u && u <= 0x0D) || u == 0x20 || u == 0x85 || u == 0xA0 || u == 0x1680
        || (0x2000 <= u && u <= 0x200A) || u == 0x2028 || u == 0x2029 || u == 0x202F
        || u == 0x205F || u == 0x3000
}

/// Tests whether a character is Unicode whitespace.
pub fn is_whitespace(c: char) -> (b: bool)
    ensures
        b == is_space(c),
{
    let u: u32 = c as u32;
    (0x09 <= u && u <= 0x0D) || u == 0x20 || u == 0x85 || u == 0xA0 || u == 0x1680
        || (0x2000 <= u && u <= 0x200A) || u == 0x2028 || u == 0x2029 || u == 0x202F
        || u == 0x205F || u == 0x3000
}

/// The characters of a string, in order.
pub fn chars_of(s: &str) -> (v: Vec<char>)
    ensures
        v@ == s@,
{
    let mut v: Vec<char> = Vec::new();
    let chars = s.chars();
    for c in it: chars
        invariant
            it.seq() == s@,
            v@ == it.seq().take(it.index() as int),
    {
        v.push(c);
    }
    assert(v@ == s@.take(s@.len() as int));
    v
}

/// Appends one character to a `String` by `String::push`, which the standard
/// library documents as appending the given character to the end.
#[verifier::external_body]
fn push_char(s: &mut String, c: char)
    ensures
        final(s)@ == old(s)@.push(c),
{
    s.push(c)
}

/// The string made of the given characters, in order.
pub fn string_of(v: &Vec<char>) -> (s: String)
    ensures
        s@ == v@,
{
    let mut s = String::new();
    let mut i: usize = 0;
    while i < v.len()
        invariant
            i <= v.len(),
            s@ == v@.take(i as int),
        decreases v.len() - i,
    {
        push_char(&mut s, v[i]);
        i += 1;
    }
    s
}

/// The views of a run of strings.
pub open spec fn lines_view(lines: Seq<String>) -> Seq<Seq<char>> {
    Seq::new(lines.len(), |i: int| lines[i]@)
}

/// The views of a vector of character vectors.
pub open spec fn views(v: Seq<Vec<char>>) -> Seq<Seq<char>> {
    Seq::new(v.len(), |i: int| v[i]@)
}

/// The fields of `s` when it is cut at every occurrence of `d`. There is
/// always at least one field; a field may be empty.
pub open spec fn split(s: Seq<char>, d: char) -> Seq<Seq<char>>
    decreases s.len(),
{
    if s.len() == 0 {
        seq![Seq::<char>::empty()]
    } else {
        let prev = split(s.drop_last(), d);
        if s.last() == d {
            prev.push(Seq::<char>::empty())
        } else {
            prev.drop_last().push(prev.last().push(s.last()))
        }
    }
}

/// The fields joined by `d`, with no delimiter at either end.
pub open spec fn join(fields: Seq<Seq<char>>, d: char) -> Seq<char>
    decreases fields.len(),
{
    if fields.len() == 0 {
        Seq::<char>::empty()
    } else if fields.len() == 1 {
        fields[0]
    } else {
        join(fields.drop_last(), d).push(d) + fields.last()
    }
}

/// A split always yields at least one field.
pub proof fn lemma_split_nonempty(s: Seq<char>, d: char)
    ensures
        split(s, d).len() >= 1,
    decreases s.len(),
{
    if s.len() > 0 {
        lemma_split_nonempty(s.drop_last(), d);
    }
}

/// The first field of a text that does not begin with the delimiter begins
/// as the text does.
pub proof fn lemma_split_first(s: Seq<char>, d: char)
    requires
        s.len() > 0,
        s[0] != d,
    ensures
        split(s, d).len() >= 1,
        split(s, d)[0].len() > 0,
        split(s, d)[0][0] == s[0],
    decreases s.len(),
{
    let head = s.drop_last();
    lemma_split_nonempty(head, d);
    if head.len() == 0 {
        assert(s.last() == s[0]);
        assert(split(head, d) == seq![Seq::<char>::empty()]);
    } else {
        assert(head[0] == s[0]);
        lemma_split_first(head, d);
    }
}

/// Joining what `split` made gives back the text, and no field of a split
/// holds the delimiter.
pub proof fn lemma_join_split(s: Seq<char>, d: char)
    ensures
        join(split(s, d), d) == s,
        forall|i: int| 0 <= i < split(s, d).len() ==> !(#[trigger] split(s, d)[i]).contains(d),
    decreases s.len(),
{
    let fields = split(s, d);
    if s.len() == 0 {
        assert(fields.len() == 1 && fields[0] == Seq::<char>::empty());
        assert(join(fields, d) =~= s);
    } else {
        let head = s.drop_last();
        let prev = split(head, d);
        let c = s.last();
        lemma_join_split(head, d);
        lemma_split_nonempty(head, d);
        assert(head.push(c) =~= s);
        if c == d {
            assert(fields == prev.push(Seq::<char>::empty()));
            assert(fields.drop_last() =~= prev);
            assert(join(fields, d) =~= join(prev, d).push(d));
            assert forall|i: int| 0 <= i < fields.len() implies !(#[trigger] fields[i]).contains(
                d,
            ) by {
                if i < prev.len() {
                    assert(fields[i] == prev[i]);
                }
            }
        } else {
            let last = prev.last().push(c);
            assert(fields == prev.drop_last().push(last));
            assert(fields.drop_last() =~= prev.drop_last());
            if prev.len() == 1 {
                assert(join(prev, d) == prev[0]);
                assert(join(fields, d) =~= join(prev, d).push(c));
            } else {
                assert(join(prev, d) == join(prev.drop_last(), d).push(d) + prev.last());
                assert(join(fields, d) == join(prev.drop_last(), d).push(d) + last);
                assert(join(fields, d) =~= join(prev, d).push(c));
            }
            assert forall|i: int| 0 <= i < fields.len() implies !(#[trigger] fields[i]).contains(
                d,
            ) by {
                if i < prev.len() - 1 {
                    assert(fields[i] == prev[i]);
                } else {
                    assert(!prev.last().contains(d));
                    if last.contains(d) {
                        let j = choose|j: int| 0 <= j < last.len() && last[j] == d;
                        if j < prev.last().len() {
                            assert(prev.last()[j] == d);
                        }
                    }
                }
            }
        }
    }
}

/// Appending text without a delimiter extends the last field.
pub proof fn lemma_split_append_plain(s: Seq<char>, t: Seq<char>, d: char)
    requires
        !t.contains(d),
    ensures
        split(s + t, d) == split(s, d).drop_last().push(split(s, d).last() + t),
    decreases t.len(),
{
    lemma_split_nonempty(s, d);
    if t.len() == 0 {
        assert(s + t == s);
        assert(split(s, d).last() + t == split(s, d).last());
        assert(split(s, d).drop_last().push(split(s, d).last()) == split(s, d));
    } else {
        let t0 = t.drop_last();
        assert(!t0.contains(d)) by {
            if t0.contains(d) {
                let i = choose|i: int| 0 <= i < t0.len() && t0[i] == d;
                assert(t[i] == d);
            }
        }
        assert(t.last() != d) by {
            if t.last() == d {
                assert(t[t.len() - 1] == d);
            }
        }
        lemma_split_append_plain(s, t0, d);
        assert((s + t).drop_last() == s + t0);
        assert((s + t).last() == t.last());
        let prev = split(s + t0, d);
        assert(prev.last().push(t.last()) == split(s, d).last() + t) by {
            assert(t0.push(t.last()) == t);
            assert((split(s, d).last() + t0).push(t.last()) == split(s, d).last() + t);
        }
        assert(prev.drop_last() == split(s, d).drop_last());
    }
}

/// Splitting what `join` made gives back the fields, when no field holds the
/// delimiter and there is at least one field.
pub proof fn lemma_split_join(fields: Seq<Seq<char>>, d: char)
    requires
        fields.len() >= 1,
        forall|i: int| 0 <= i < fields.len() ==> !(#[trigger] fields[i]).contains(d),
    ensures
        split(join(fields, d), d) == fields,
    decreases fields.len(),
{
    let e = Seq::<char>::empty();
    if fields.len() == 1 {
        lemma_split_append_plain(e, fields[0], d);
        assert(e + fields[0] == fields[0]);
        assert(split(e, d) == seq![e]);
        assert(seq![e].drop_last().push(seq![e].last() + fields[0]) == fields);
    } else {
        let head = fields.drop_last();
        assert forall|i: int| 0 <= i < head.len() implies !(#[trigger] head[i]).contains(d) by {
            assert(head[i] == fields[i]);
        }
        lemma_split_join(head, d);
        let j = join(head, d).push(d);
        assert(j.drop_last() == join(head, d));
        assert(split(j, d) == head.push(e));
        lemma_split_append_plain(j, fields.last(), d);
        assert(e + fields.last() == fields.last());
        assert(head.push(e).drop_last() == head);
        assert(head.push(fields.last()) == fields);
    }
}

/// Cuts `s` at every occurrence of `d`.
pub fn split_fields(s: &Vec<char>, d: char) -> (out: Vec<Vec<char>>)
    ensures
        views(out@) == split(s@, d),
{
    let mut out: Vec<Vec<char>> = Vec::new();
    let mut cur: Vec<char> = Vec::new();
    let mut i: usize = 0;
    assert(views(out@).push(cur@) == split(s@.take(0), d));
    while i < s.len()
        invariant
            i <= s.len(),
            views(out@).push(cur@) == split(s@.take(i as int), d),
        decreases s.len() - i,
    {
        let c = s[i];
        proof {
            assert(s@.take(i + 1).drop_last() == s@.take(i as int));
            assert(s@.take(i + 1).last() == c);
        }
        let ghost before = views(out@).push(cur@);
        if c == d {
            out.push(cur);
            cur = Vec::new();
            assert(views(out@).push(cur@) == before.push(Seq::<char>::empty()));
        } else {
            cur.push(c);
            assert(views(out@).push(cur@) == before.drop_last().push(before.last().push(c)));
        }
        i += 1;
    }
    assert(s@.take(i as int) == s@);
    let ghost before = views(out@).push(cur@);
    out.push(cur);
    assert(views(out@) == before);
    out
}

/// Joins the fields by `d`, with no delimiter at either end.
pub fn join_fields(fields: &Vec<Vec<char>>, d: char) -> (out: Vec<char>)
    ensures
        out@ == join(views(fields@), d),
{
    let mut out: Vec<char> = Vec::new();
    let mut i: usize = 0;
    assert(views(fields@).take(0) =~= Seq::<Seq<char>>::empty());
    while i < fields.len()
        invariant
            i <= fields.len(),
            out@ == join(views(fields@).take(i as int), d),
        decreases fields.len() - i,
    {
        let ghost head = views(fields@).take(i as int);
        let ghost next = views(fields@).take(i + 1);
        proof {
            assert(next.drop_last() =~= head);
            assert(next.last() == fields@[i as int]@);
        }
        if i > 0 {
            out.push(d);
        }
        let ghost start = out@;
        let field = &fields[i];
        let mut j: usize = 0;
        while j < field.len()
            invariant
                j <= field.len(),
                out@ == start + field@.take(j as int),
            decreases field.len() - j,
        {
            out.push(field[j]);
            assert(field@.take(j + 1) =~= field@.take(j as int).push(field@[j as int]));
            j += 1;
        }
        proof {
            assert(field@.take(j as int) =~= field@);
            if i == 0 {
                assert(start + field@ =~= field@);
                assert(next.len() == 1);
            }
        }
        i += 1;
    }
    assert(views(fields@).take(i as int) =~= views(fields@));
    out
}

/// The maximal runs of non-whitespace characters of `s`, in order.
pub open spec fn tokens(s: Seq<char>) -> Seq<Seq<char>>
    decreases s.len(),
{
    if s.len() == 0 {
        Seq::<Seq<char>>::empty()
    } else {
        let prev = tokens(s.drop_last());
        let c = s.last();
        if is_space(c) {
            prev
        } else if s.len() >= 2 && !is_space(s[s.len() - 2]) {
            prev.drop_last().push(prev.last().push(c))
        } else {
            prev.push(seq![c])
        }
    }
}

/// Cuts `s` into its whitespace-separated tokens.
pub fn split_tokens(s: &Vec<char>) -> (out: Vec<Vec<char>>)
    ensures
        views(out@) == tokens(s@),
{
    let mut out: Vec<Vec<char>> = Vec::new();
    let mut cur: Vec<char> = Vec::new();
    let mut inside = false;
    let mut i: usize = 0;
    assert(views(out@) == tokens(s@.take(0)));
    while i < s.len()
        invariant
            i <= s.len(),
            inside <==> (i > 0 && !is_space(s@[i - 1])),
            inside ==> views(out@).push(cur@) == tokens(s@.take(i as int)),
            !inside ==> views(out@) == tokens(s@.take(i as int)) && cur@.len() == 0,
        decreases s.len() - i,
    {
        let c = s[i];
        proof {
            assert(s@.take(i + 1).drop_last() == s@.take(i as int));
            assert(s@.take(i + 1).last() == c);
            if i > 0 {
                assert(s@.take(i + 1)[i - 1] == s@[i - 1]);
            }
        }
        let ghost done = views(out@);
        let ghost word = cur@;
        if is_whitespace(c) {
            if inside {
                out.push(cur);
                cur = Vec::new();
                assert(views(out@) == done.push(word));
            }
            inside = false;
        } else {
            cur.push(c);
            if inside {
                assert(done.push(word).drop_last() == done);
                assert(views(out@).push(cur@) == done.push(word.push(c)));
            } else {
                assert(cur@ == seq![c]);
                assert(views(out@).push(cur@) == done.push(seq![c]));
            }
            inside = true;
        }
        i += 1;
    }
    assert(s@.take(i as int) == s@);
    if inside {
        let ghost before = views(out@).push(cur@);
        out.push(cur);
        assert(views(out@) == before);
    }
    out
}

/// `s` without the whitespace at its end.
pub open spec fn trim_end_of(s: Seq<char>) -> Seq<char>
    decreases s.len(),
{
    if s.len() > 0 && is_space(s.last()) {
        trim_end_of(s.drop_last())
    } else {
        s
    }
}

/// `s` without the whitespace at its start.
pub open spec fn trim_start_of(s: Seq<char>) -> Seq<char>
    decreases s.len(),
{
    if s.len() > 0 && is_space(s[0]) {
        trim_start_of(s.skip(1))
    } else {
        s
    }
}

/// `s` without the whitespace at either end.
pub open spec fn trimmed(s: Seq<char>) -> Seq<char> {
    trim_start_of(trim_end_of(s))
}

/// Whether `c` is a round bracket.
pub open spec fn is_bracket(c: char) -> bool {
    c == '(' || c == ')'
}

/// `s` without the round brackets at its end.
pub open spec fn strip_brackets_end(s: Seq<char>) -> Seq<char>
    decreases s.len(),
{
    if s.len() > 0 && is_bracket(s.last()) {
        strip_brackets_end(s.drop_last())
    } else {
        s
    }
}

/// `s` without the round brackets at its start.
pub open spec fn strip_brackets_start(s: Seq<char>) -> Seq<char>
    decreases s.len(),
{
    if s.len() > 0 && is_bracket(s[0]) {
        strip_brackets_start(s.skip(1))
    } else {
        s
    }
}

/// `s` without the round brackets at either end.
pub open spec fn unbracketed(s: Seq<char>) -> Seq<char> {
    strip_brackets_start(strip_brackets_end(s))
}

/// `s` without the occurrences of `c` at its end.
pub open spec fn without_trailing(s: Seq<char>, c: char) -> Seq<char>
    decreases s.len(),
{
    if s.len() > 0 && s.last() == c {
        without_trailing(s.drop_last(), c)
    } else {
        s
    }
}

/// Removes the occurrences of `c` at the end.
pub fn strip_trailing(s: &Vec<char>, c: char) -> (out: Vec<char>)
    ensures
        out@ == without_trailing(s@, c),
{
    let mut e: usize = s.len();
    assert(s@.take(e as int) =~= s@);
    while e > 0 && s[e - 1] == c
        invariant
            e <= s.len(),
            without_trailing(s@, c) == without_trailing(s@.take(e as int), c),
        decreases e,
    {
        proof {
            assert(s@.take(e as int).last() == s@[e - 1]);
            assert(s@.take(e as int).drop_last() =~= s@.take(e - 1));
        }
        e -= 1;
    }
    proof {
        if e > 0 {
            assert(s@.take(e as int).last() == s@[e - 1]);
        }
        assert(s@.take(e as int) =~= s@.subrange(0, e as int));
    }
    slice_of(s, 0, e)
}

/// Whether `s` begins with one of `prefixes`.
pub open spec fn has_prefix_in(s: Seq<char>, prefixes: Seq<Seq<char>>) -> bool {
    exists|i: int| 0 <= i < prefixes.len() && (#[trigger] prefixes[i]).is_prefix_of(s)
}

/// Whether `s` begins with one of `prefixes`.
pub fn starts_with_any(s: &Vec<char>, prefixes: &Vec<Vec<char>>) -> (b: bool)
    ensures
        b == has_prefix_in(s@, views(prefixes@)),
{
    let mut i: usize = 0;
    while i < prefixes.len()
        invariant
            i <= prefixes.len(),
            forall|j: int| 0 <= j < i ==> !(#[trigger] views(prefixes@)[j]).is_prefix_of(s@),
        decreases prefixes.len() - i,
    {
        assert(views(prefixes@)[i as int] == prefixes@[i as int]@);
        if starts_with(s, &prefixes[i]) {
            return true;
        }
        i += 1;
    }
    false
}

/// Whether `pat` stands in `s` at place `i`.
pub open spec fn occurs_at(s: Seq<char>, pat: Seq<char>, i: int) -> bool {
    0 <= i && i + pat.len() <= s.len() && s.subrange(i, i + pat.len()) == pat
}

/// Whether `pat` stands in `s` at place `i`.
fn stands_at(s: &Vec<char>, pat: &Vec<char>, i: usize) -> (b: bool)
    requires
        i + pat.len() <= s.len(),
    ensures
        b == occurs_at(s@, pat@, i as int),
{
    let mut k: usize = 0;
    while k < pat.len()
        invariant
            k <= pat.len(),
            i + pat.len() <= s.len(),
            forall|m: int| 0 <= m < k ==> s@[i + m] == pat@[m],
        decreases pat.len() - k,
    {
        if s[i + k] != pat[k] {
            assert(s@.subrange(i as int, i + pat@.len())[k as int] != pat@[k as int]);
            return false;
        }
        k += 1;
    }
    assert(s@.subrange(i as int, i + pat@.len()) =~= pat@);
    true
}

/// The first place at which `pat` stands in `s`, if there is one.
pub fn find_text(s: &Vec<char>, pat: &Vec<char>) -> (r: Option<usize>)
    ensures
        match r {
            Some(i) => occurs_at(s@, pat@, i as int) && forall|j: int|
                0 <= j < i ==> !occurs_at(s@, pat@, j),
            None => forall|j: int| !occurs_at(s@, pat@, j),
        },
{
    if pat.len() > s.len() {
        return None;
    }
    let last: usize = s.len() - pat.len();
    let mut i: usize = 0;
    while i < last
        invariant
            i <= last,
            last == s.len() - pat.len(),
            forall|j: int| 0 <= j < i ==> !occurs_at(s@, pat@, j),
        decreases last - i,
    {
        if stands_at(s, pat, i) {
            return Some(i);
        }
        i += 1;
    }
    if stands_at(s, pat, last) {
        Some(last)
    } else {
        None
    }
}

/// Whether two runs of characters are the same.
pub fn same_text(a: &Vec<char>, b: &Vec<char>) -> (r: bool)
    ensures
        r == (a@ == b@),
{
    if a.len() != b.len() {
        return false;
    }
    let mut i: usize = 0;
    while i < a.len()
        invariant
            i <= a.len(),
            a.len() == b.len(),
            forall|j: int| 0 <= j < i ==> a@[j] == b@[j],
        decreases a.len() - i,
    {
        if a[i] != b[i] {
            return false;
        }
        i += 1;
    }
    assert(a@ =~= b@);
    true
}

/// The characters of `s` from `from` up to but not including `to`.
pub fn slice_of(s: &Vec<char>, from: usize, to: usize) -> (out: Vec<char>)
    requires
        from <= to <= s.len(),
    ensures
        out@ == s@.subrange(from as int, to as int),
{
    let mut out: Vec<char> = Vec::new();
    let mut i: usize = from;
    while i < to
        invariant
            from <= i <= to <= s.len(),
            out@ == s@.subrange(from as int, i as int),
        decreases to - i,
    {
        out.push(s[i]);
        assert(out@ =~= s@.subrange(from as int, i + 1));
        i += 1;
    }
    out
}

/// Removes the whitespace at both ends.
pub fn trim(s: &Vec<char>) -> (out: Vec<char>)
    ensures
        out@ == trimmed(s@),
{
    let mut e: usize = s.len();
    assert(s@.take(e as int) =~= s@);
    while e > 0 && is_whitespace(s[e - 1])
        invariant
            e <= s.len(),
            trim_end_of(s@) == trim_end_of(s@.take(e as int)),
        decreases e,
    {
        proof {
            assert(s@.take(e as int).last() == s@[e - 1]);
            assert(s@.take(e as int).drop_last() =~= s@.take(e - 1));
        }
        e -= 1;
    }
    proof {
        if e > 0 {
            assert(s@.take(e as int).last() == s@[e - 1]);
        }
    }
    let ghost body = s@.take(e as int);
    let mut a: usize = 0;
    assert(body.subrange(0, e as int) =~= body);
    while a < e && is_whitespace(s[a])
        invariant
            a <= e <= s.len(),
            body == s@.take(e as int),
            trim_start_of(body) == trim_start_of(body.subrange(a as int, e as int)),
        decreases e - a,
    {
        proof {
            let rest = body.subrange(a as int, e as int);
            assert(rest[0] == s@[a as int]);
            assert(rest.skip(1) =~= body.subrange(a + 1, e as int));
        }
        a += 1;
    }
    proof {
        let rest = body.subrange(a as int, e as int);
        if a < e {
            assert(rest[0] == s@[a as int]);
        }
        assert(rest =~= s@.subrange(a as int, e as int));
    }
    slice_of(s, a, e)
}

/// Removes the round brackets at both ends.
pub fn strip_brackets(s: &Vec<char>) -> (out: Vec<char>)
    ensures
        out@ == unbracketed(s@),
{
    let mut e: usize = s.len();
    assert(s@.take(e as int) =~= s@);
    while e > 0 && (s[e - 1] == '(' || s[e - 1] == ')')
        invariant
            e <= s.len(),
            strip_brackets_end(s@) == strip_brackets_end(s@.take(e as int)),
        decreases e,
    {
        proof {
            assert(s@.take(e as int).last() == s@[e - 1]);
            assert(s@.take(e as int).drop_last() =~= s@.take(e - 1));
        }
        e -= 1;
    }
    proof {
        if e > 0 {
            assert(s@.take(e as int).last() == s@[e - 1]);
        }
    }
    let ghost body = s@.take(e as int);
    let mut a: usize = 0;
    assert(body.subrange(0, e as int) =~= body);
    while a < e && (s[a] == '(' || s[a] == ')')
        invariant
            a <= e <= s.len(),
            body == s@.take(e as int),
            strip_brackets_start(body) == strip_brackets_start(
                body.subrange(a as int, e as int),
            ),
        decreases e - a,
    {
        proof {
            let rest = body.subrange(a as int, e as int);
            assert(rest[0] == s@[a as int]);
            assert(rest.skip(1) =~= body.subrange(a + 1, e as int));
        }
        a += 1;
    }
    proof {
        let rest = body.subrange(a as int, e as int);
        if a < e {
            assert(rest[0] == s@[a as int]);
        }
        assert(rest =~= s@.subrange(a as int, e as int));
    }
    slice_of(s, a, e)
}

/// Whether `s` begins with `prefix`.
pub fn starts_with(s: &Vec<char>, prefix: &Vec<char>) -> (b: bool)
    ensures
        b == prefix@.is_prefix_of(s@),
{
    if prefix.len() > s.len() {
        return false;
    }
    let mut i: usize = 0;
    while i < prefix.len()
        invariant
            i <= prefix.len() <= s.len(),
            forall|j: int| 0 <= j < i ==> s@[j] == prefix@[j],
        decreases prefix.len() - i,
    {
        if s[i] != prefix[i] {
            assert(s@.subrange(0, prefix@.len() as int)[i as int] != prefix@[i as int]);
            return false;
        }
        i += 1;
    }
    assert(s@.subrange(0, prefix@.len() as int) =~= prefix@);
    true
}

/// Whether `c` is one of the ASCII digits `0` to `9`.
pub open spec fn is_digit(c: char) -> bool {
    48 <= c as u32 && c as u32 <= 57
}

/// Whether every character of `s` is an ASCII digit.
pub open spec fn all_digits(s: Seq<char>) -> bool {
    forall|i: int| 0 <= i < s.len() ==> is_digit(#[trigger] s[i])
}

/// The number that a string of ASCII digits denotes in base ten.
pub open spec fn decimal_value(s: Seq<char>) -> nat
    decreases s.len(),
{
    if s.len() == 0 {
        0
    } else {
        (decimal_value(s.drop_last()) * 10 + (s.last() as u32 - 48)) as nat
    }
}

/// The digits of a decimal number after an optional leading plus sign.
pub open spec fn unsigned_body(s: Seq<char>) -> Seq<char> {
    if s.len() > 0 && s[0] == '+' {
        s.skip(1)
    } else {
        s
    }
}

/// The value of `s` read as a decimal number no greater than `max`: an
/// optional plus sign, then one or more ASCII digits and nothing else.
pub open spec fn parse_decimal(s: Seq<char>, max: nat) -> Option<nat> {
    let body = unsigned_body(s);
    if body.len() > 0 && all_digits(body) && decimal_value(body) <= max {
        Some(decimal_value(body))
    } else {
        None
    }
}

/// The value of `s` read as a `u64`.
pub open spec fn parse_u64_spec(s: Seq<char>) -> Option<u64> {
    match parse_decimal(s, u64::MAX as nat) {
        Some(n) => Some(n as u64),
        None => None,
    }
}

/// The value of `s` read as a `u32`.
pub open spec fn parse_u32_spec(s: Seq<char>) -> Option<u32> {
    match parse_decimal(s, u32::MAX as nat) {
        Some(n) => Some(n as u32),
        None => None,
    }
}

/// The shortest decimal writing of `n`.
pub open spec fn decimal_digits(n: nat) -> Seq<char>
    decreases n,
{
    if n < 10 {
        seq![(48 + n) as char]
    } else {
        decimal_digits(n / 10).push((48 + n % 10) as char)
    }
}

/// A longer digit string denotes no smaller a number than its prefixes.
pub proof fn lemma_decimal_value_prefix(s: Seq<char>, k: int)
    requires
        all_digits(s),
        0 <= k <= s.len(),
    ensures
        decimal_value(s.take(k)) <= decimal_value(s),
    decreases s.len(),
{
    if k == s.len() {
        assert(s.take(k) == s);
    } else {
        let head = s.drop_last();
        assert(all_digits(head)) by {
            assert forall|i: int| 0 <= i < head.len() implies is_digit(#[trigger] head[i]) by {
                assert(head[i] == s[i]);
            }
        }
        lemma_decimal_value_prefix(head, k);
        assert(head.take(k) == s.take(k));
        assert(is_digit(s[s.len() - 1]));
    }
}

/// Reading the decimal writing of a number gives the number back.
pub proof fn lemma_decimal_roundtrip(n: nat)
    ensures
        decimal_digits(n).len() >= 1,
        all_digits(decimal_digits(n)),
        decimal_digits(n)[0] != '+',
        decimal_value(decimal_digits(n)) == n,
        forall|max: nat| n <= max ==> #[trigger] parse_decimal(decimal_digits(n), max) == Some(n),
    decreases n,
{
    let ds = decimal_digits(n);
    if n < 10 {
        let c = (48 + n) as char;
        assert(c as u32 == 48 + n);
        assert(ds == seq![c]);
        assert(ds.drop_last() == Seq::<char>::empty());
        assert(decimal_value(ds.drop_last()) == 0);
        assert(ds.last() == c);
        assert(decimal_value(ds) == n);
    } else {
        lemma_decimal_roundtrip(n / 10);
        let head = decimal_digits(n / 10);
        let c = (48 + n % 10) as char;
        assert(c as u32 == 48 + n % 10);
        assert(ds == head.push(c));
        assert(ds.drop_last() == head);
        assert(ds.last() == c);
        assert(ds[0] == head[0]);
        assert(all_digits(ds)) by {
            assert forall|i: int| 0 <= i < ds.len() implies is_digit(#[trigger] ds[i]) by {
                if i < head.len() {
                    assert(ds[i] == head[i]);
                }
            }
        }
        assert(decimal_value(ds) == (n / 10) * 10 + n % 10);
    }
    assert(ds[0] != '+') by {
        assert(is_digit(ds[0]));
    }
    assert(unsigned_body(ds) == ds);
}

/// Digit strings never hold a comma, a line break or whitespace.
pub proof fn lemma_digits_plain(s: Seq<char>)
    requires
        all_digits(s),
    ensures
        !s.contains(','),
        !s.contains('\n'),
        forall|i: int| 0 <= i < s.len() ==> !is_space(#[trigger] s[i]),
{
    if s.contains(',') {
        let i = choose|i: int| 0 <= i < s.len() && s[i] == ',';
        assert(is_digit(s[i]));
    }
    if s.contains('\n') {
        let i = choose|i: int| 0 <= i < s.len() && s[i] == '\n';
        assert(is_digit(s[i]));
    }
    assert forall|i: int| 0 <= i < s.len() implies !is_space(#[trigger] s[i]) by {
        assert(is_digit(s[i]));
    }
}

/// Reads a decimal number no greater than `max`.
pub fn parse_bounded(s: &Vec<char>, max: u64) -> (r: Option<u64>)
    ensures
        r is Some <==> parse_decimal(s@, max as nat) is Some,
        r matches Some(n) ==> parse_decimal(s@, max as nat) == Some(n as nat),
{
    let start: usize = if s.len() > 0 && s[0] == '+' { 1 } else { 0 };
    if start == s.len() {
        return None;
    }
    let ghost body = unsigned_body(s@);
    assert(body == s@.skip(start as int));
    let mut acc: u64 = 0;
    let mut i: usize = start;
    assert(body.take(0) == Seq::<char>::empty());
    while i < s.len()
        invariant
            start <= i <= s.len(),
            body == unsigned_body(s@),
            body == s@.skip(start as int),
            all_digits(body.take(i - start)),
            acc == decimal_value(body.take(i - start)),
            acc <= max,
        decreases s.len() - i,
    {
        let u: u32 = s[i] as u32;
        let ghost k = i - start;
        proof {
            assert(body[k] == s@[i as int]);
            assert(body.take(k + 1).drop_last() == body.take(k));
            assert(body.take(k + 1).last() == body[k]);
        }
        if u < 48 || u > 57 {
            assert(!all_digits(body)) by {
                assert(!is_digit(body[k]));
            }
            return None;
        }
        let d: u64 = (u - 48) as u64;
        proof {
            assert(all_digits(body.take(k + 1))) by {
                assert forall|j: int| 0 <= j < k + 1 implies is_digit(
                    #[trigger] body.take(k + 1)[j],
                ) by {
                    if j < k {
                        assert(body.take(k + 1)[j] == body.take(k)[j]);
                    }
                }
            }
            if all_digits(body) {
                lemma_decimal_value_prefix(body, k + 1);
            }
        }
        let next: u128 = acc as u128 * 10 + d as u128;
        if next > max as u128 {
            assert(decimal_value(body.take(k + 1)) > max);
            return None;
        }
        acc = next as u64;
        i += 1;
    }
    assert(body.take(i - start) == body);
    Some(acc)
}

/// Reads a decimal `u64`: an optional plus sign, then ASCII digits only.
pub fn parse_u64(s: &Vec<char>) -> (r: Option<u64>)
    ensures
        r == parse_u64_spec(s@),
{
    parse_bounded(s, u64::MAX)
}

/// Reads a decimal `u32`: an optional plus sign, then ASCII digits only.
pub fn parse_u32(s: &Vec<char>) -> (r: Option<u32>)
    ensures
        r == parse_u32_spec(s@),
{
    match parse_bounded(s, 0xFFFF_FFFF) {
        Some(n) => Some(n as u32),
        None => None,
    }
}

/// Writes `n` in base ten, with no sign and no leading zeros.
pub fn format_u64(n: u64) -> (out: Vec<char>)
    ensures
        out@ == decimal_digits(n as nat),
{
    let mut rev: Vec<char> = Vec::new();
    rev.push(((48 + n % 10) as u8) as char);
    let mut m: u64 = n / 10;
    assert(rev@.reverse() == seq![(48 + n % 10) as char]);
    assert(Seq::<char>::empty() + rev@.reverse() == rev@.reverse());
    assert(n >= 10 ==> decimal_digits(m as nat) + rev@.reverse() == decimal_digits(n as nat));
    while m > 0
        invariant
            rev@.len() >= 1,
            decimal_digits(n as nat) == (if m > 0 {
                decimal_digits(m as nat)
            } else {
                Seq::<char>::empty()
            }) + rev@.reverse(),
        decreases m,
    {
        let c = ((48 + m % 10) as u8) as char;
        let ghost old_rev = rev@;
        rev.push(c);
        proof {
            assert(rev@.reverse() == seq![c] + old_rev.reverse());
            if m < 10 {
                assert(decimal_digits(m as nat) == seq![c]);
                assert(Seq::<char>::empty() + rev@.reverse() == seq![c] + old_rev.reverse());
            } else {
                assert(decimal_digits(m as nat) == decimal_digits((m / 10) as nat).push(c));
                assert(decimal_digits((m / 10) as nat).push(c) + old_rev.reverse()
                    == decimal_digits((m / 10) as nat) + (seq![c] + old_rev.reverse()));
            }
        }
        m = m / 10;
    }
    assert(Seq::<char>::empty() + rev@.reverse() == rev@.reverse());
    let mut out: Vec<char> = Vec::new();
    let mut i: usize = rev.len();
    while i > 0
        invariant
            i <= rev.len(),
            out@ == rev@.reverse().take(rev.len() - i),
        decreases i,
    {
        i -= 1;
        out.push(rev[i]);
        assert(out@ == rev@.reverse().take(rev.len() - i));
    }
    assert(rev@.reverse().take(rev.len() as int) == rev@.reverse());
    out
}

} // verus!
