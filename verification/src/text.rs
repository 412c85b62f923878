//! Character-level text helpers: Unicode whitespace, trimming, line
//! splitting and joining, all stated over `Seq<char>`.

use vstd::prelude::*;

verus! {

/// The Unicode `White_Space` property, the set `char::is_whitespace` tests.
pub open spec fn is_space(c: char) -> bool {
    let u = c as u32;
    ||| (0x9 <= u && u <= 0xd)
    ||| u == 0x20
    ||| u == 0x85
    ||| u == 0xa0
    ||| u == 0x1680
    ||| (0x2000 <= u && u <= 0x200a)
    ||| u == 0x2028
    ||| u == 0x2029
    ||| u == 0x202f
    ||| u == 0x205f
    ||| u == 0x3000
}

/// `s` without its leading whitespace.
pub open spec fn trim_start(s: Seq<char>) -> Seq<char>
    decreases s.len(),
{
    if s.len() > 0 && is_space(s[0]) {
        trim_start(s.drop_first())
    } else {
        s
    }
}

/// `s` without its trailing whitespace.
pub open spec fn trim_end(s: Seq<char>) -> Seq<char>
    decreases s.len(),
{
    if s.len() > 0 && is_space(s.last()) {
        trim_end(s.drop_last())
    } else {
        s
    }
}

/// `s` without leading and trailing whitespace, as `str::trim` gives it.
pub open spec fn trim(s: Seq<char>) -> Seq<char> {
    trim_end(trim_start(s))
}

/// Whether `c` is Unicode whitespace.
pub fn is_whitespace(c: char) -> (r: bool)
    ensures
        r == is_space(c),
{
    let u = c as u32;
    (0x9 <= u && u <= 0xd) || u == 0x20 || u == 0x85 || u == 0xa0 || u == 0x1680 || (0x2000 <= u
        && u <= 0x200a) || u == 0x2028 || u == 0x2029 || u == 0x202f || u == 0x205f || u == 0x3000
}

/// The characters of `s`, in order.
pub fn str_chars(s: &str) -> (r: Vec<char>)
    ensures
        r@ == s@,
{
    let mut out: Vec<char> = Vec::new();
    for c in it: s.chars()
        invariant
            out@ == it.seq().take(it.index() as int),
    {
        out.push(c);
    }
    out
}


/// `trim_start` only looks at the leading whitespace: dropping a prefix of
/// whitespace does not change it.
proof fn lemma_trim_start_skip(s: Seq<char>, i: int)
    requires
        0 <= i < s.len(),
        is_space(s[i]),
    ensures
        trim_start(s.skip(i)) == trim_start(s.skip(i + 1)),
{
    assert(s.skip(i).drop_first() =~= s.skip(i + 1));
}

/// Dropping a suffix of whitespace does not change `trim_end`.
proof fn lemma_trim_end_take(s: Seq<char>, j: int)
    requires
        0 < j <= s.len(),
        is_space(s[j - 1]),
    ensures
        trim_end(s.take(j)) == trim_end(s.take(j - 1)),
{
    assert(s.take(j).drop_last() =~= s.take(j - 1));
}

/// `s` without leading and trailing whitespace.
pub fn trim_chars(s: &Vec<char>) -> (r: Vec<char>)
    ensures
        r@ == trim(s@),
{
    let n = s.len();
    let mut a: usize = 0;
    assert(s@.skip(0) =~= s@);
    while a < n && is_whitespace(s[a])
        invariant
            a <= n,
            n == s@.len(),
            trim_start(s@) == trim_start(s@.skip(a as int)),
        decreases n - a,
    {
        proof {
            lemma_trim_start_skip(s@, a as int);
        }
        a = a + 1;
    }
    let ghost t = s@.skip(a as int);
    assert(trim_start(s@) == t);
    let mut b: usize = n;
    assert(t.take(t.len() as int) =~= t);
    while b > a && is_whitespace(s[b - 1])
        invariant
            a <= b <= n,
            n == s@.len(),
            t == s@.skip(a as int),
            trim_end(t) == trim_end(t.take(b - a)),
        decreases b,
    {
        proof {
            lemma_trim_end_take(t, (b - a) as int);
        }
        b = b - 1;
    }
    let mut out: Vec<char> = Vec::new();
    let mut k: usize = a;
    while k < b
        invariant
            a <= k <= b <= n,
            n == s@.len(),
            out@ == s@.subrange(a as int, k as int),
        decreases b - k,
    {
        out.push(s[k]);
        k = k + 1;
    }
    assert(t.take(b - a) =~= s@.subrange(a as int, b as int));
    out
}


/// The pieces of `s` between `'\n'` characters, as `str::split('\n')` gives
/// them: one more piece than there are newlines.
pub open spec fn split_lines(s: Seq<char>) -> Seq<Seq<char>>
    decreases s.len(),
{
    if s.len() == 0 {
        seq![Seq::<char>::empty()]
    } else {
        let p = split_lines(s.drop_last());
        if s.last() == '\n' {
            p.push(Seq::<char>::empty())
        } else {
            p.update(p.len() - 1, p.last().push(s.last()))
        }
    }
}

/// Each piece trimmed, the pieces that are then empty left out.
pub open spec fn trimmed_nonblank(pieces: Seq<Seq<char>>) -> Seq<Seq<char>>
    decreases pieces.len(),
{
    if pieces.len() == 0 {
        Seq::<Seq<char>>::empty()
    } else {
        let rest = trimmed_nonblank(pieces.drop_last());
        let t = trim(pieces.last());
        if t.len() > 0 {
            rest.push(t)
        } else {
            rest
        }
    }
}

/// The lines of `s` (what `str::lines` yields), each trimmed, with the blank
/// ones left out. A `"\r\n"` ending needs no separate case: the trim
/// removes the `'\r'`, and the empty piece after a final newline is blank.
pub open spec fn nonblank_lines(s: Seq<char>) -> Seq<Seq<char>> {
    trimmed_nonblank(split_lines(s))
}

/// The text of an optional string.
pub open spec fn opt_text(o: Option<String>) -> Option<Seq<char>> {
    match o {
        Some(s) => Some(s@),
        None => None,
    }
}

/// The texts of a sequence of character vectors.
pub open spec fn texts(v: Seq<Vec<char>>) -> Seq<Seq<char>> {
    v.map_values(|l: Vec<char>| l@)
}

/// The parts separated by `sep`, as `[T]::join` gives them.
pub open spec fn join(parts: Seq<Seq<char>>, sep: Seq<char>) -> Seq<char>
    decreases parts.len(),
{
    if parts.len() == 0 {
        Seq::<char>::empty()
    } else if parts.len() == 1 {
        parts[0]
    } else {
        join(parts.drop_last(), sep) + sep + parts.last()
    }
}

/// The trimmed, non-blank lines of `text`.
pub fn nonblank_lines_of(text: &Vec<char>) -> (r: Vec<Vec<char>>)
    ensures
        texts(r@) == nonblank_lines(text@),
{
    let n = text.len();
    let mut out: Vec<Vec<char>> = Vec::new();
    let mut cur: Vec<char> = Vec::new();
    let ghost mut done: Seq<Seq<char>> = Seq::empty();
    assert(text@.take(0) =~= Seq::<char>::empty());
    assert(texts(out@) =~= Seq::<Seq<char>>::empty());
    for i in 0..n
        invariant
            n == text@.len(),
            split_lines(text@.take(i as int)) == done.push(cur@),
            texts(out@) == trimmed_nonblank(done),
    {
        let c = text[i];
        proof {
            assert(text@.take(i + 1).drop_last() =~= text@.take(i as int));
            assert(text@.take(i + 1).last() == c);
        }
        if c == '\n' {
            let t = trim_chars(&cur);
            let ghost before = out@;
            if t.len() > 0 {
                out.push(t);
                assert(texts(out@) =~= texts(before).push(t@));
            }
            proof {
                assert(done.push(cur@).drop_last() =~= done);
                done = done.push(cur@);
            }
            cur = Vec::new();
            assert(cur@ =~= Seq::<char>::empty());
        } else {
            let ghost before = cur@;
            cur.push(c);
            assert(done.push(before).update(done.len() as int, before.push(c)) =~= done.push(cur@));
        }
    }
    let t = trim_chars(&cur);
    let ghost before = out@;
    if t.len() > 0 {
        out.push(t);
        assert(texts(out@) =~= texts(before).push(t@));
    }
    assert(text@.take(n as int) =~= text@);
    assert(done.push(cur@).drop_last() =~= done);
    out
}

/// The parts joined with a newline between each two.
pub fn join_lines(parts: &Vec<Vec<char>>) -> (r: Vec<char>)
    ensures
        r@ == join(texts(parts@), seq!['\n']),
{
    let mut out: Vec<char> = Vec::new();
    let n = parts.len();
    assert(texts(parts@).take(0) =~= Seq::<Seq<char>>::empty());
    for i in 0..n
        invariant
            n == parts@.len(),
            out@ == join(texts(parts@).take(i as int), seq!['\n']),
    {
        let ghost before = out@;
        if i > 0 {
            out.push('\n');
        }
        let part = &parts[i];
        let m = part.len();
        for k in 0..m
            invariant
                m == part@.len(),
                out@ == (if i > 0 { before.push('\n') } else { before }) + part@.take(k as int),
        {
            out.push(part[k]);
            assert(part@.take(k + 1) =~= part@.take(k as int).push(part[k as int]));
        }
        proof {
            let tp = texts(parts@);
            assert(tp.take(i + 1).drop_last() =~= tp.take(i as int));
            assert(tp.take(i + 1).last() == part@);
            assert(part@.take(m as int) =~= part@);
            if i == 0 {
                assert(tp.take(1) =~= seq![part@]);
            }
        }
    }
    assert(texts(parts@).take(n as int) =~= texts(parts@));
    out
}

/// Whether two strings hold the same characters.
pub fn str_equals(a: &str, b: &str) -> (r: bool)
    ensures
        r == (a@ == b@),
{
    let x = str_chars(a);
    let y = str_chars(b);
    if x.len() != y.len() {
        return false;
    }
    let n = x.len();
    for i in 0..n
        invariant
            n == x@.len(),
            n == y@.len(),
            x@ == a@,
            y@ == b@,
            forall|j: int| 0 <= j < i ==> x@[j] == y@[j],
    {
        if x[i] != y[i] {
            assert(x@[i as int] != y@[i as int]);
            return false;
        }
    }
    assert(x@ =~= y@);
    true
}

/// A `String` holding the characters of `v`: `String`'s `FromIterator` over
/// `&char` appends the characters in the order the iterator yields them.
#[verifier::external_body]
pub(crate) fn string_of(v: &Vec<char>) -> (r: String)
    ensures
        r@ == v@,
{
    v.iter().collect()
}


/// After `trim_start`, the text is empty or starts with a non-space.
proof fn lemma_trim_start_shape(s: Seq<char>)
    ensures
        trim_start(s).len() == 0 || !is_space(trim_start(s)[0]),
    decreases s.len(),
{
    if s.len() > 0 && is_space(s[0]) {
        lemma_trim_start_shape(s.drop_first());
    }
}

/// `trim_end` keeps a prefix, and that prefix is empty or ends with a
/// non-space.
proof fn lemma_trim_end_shape(s: Seq<char>)
    ensures
        trim_end(s).len() <= s.len(),
        trim_end(s) =~= s.take(trim_end(s).len() as int),
        trim_end(s).len() == 0 || !is_space(trim_end(s).last()),
    decreases s.len(),
{
    if s.len() > 0 && is_space(s.last()) {
        lemma_trim_end_shape(s.drop_last());
        assert(s.drop_last().take(trim_end(s).len() as int) =~= s.take(trim_end(s).len() as int));
    } else {
        assert(s.take(s.len() as int) =~= s);
    }
}

/// Trimming twice is trimming once.
pub proof fn lemma_trim_idempotent(s: Seq<char>)
    ensures
        trim(trim(s)) == trim(s),
{
    let t = trim_start(s);
    let u = trim_end(t);
    lemma_trim_start_shape(s);
    lemma_trim_end_shape(t);
    if u.len() > 0 {
        assert(u[0] == t[0]);
        assert(trim_start(u) == u);
        assert(trim_end(u) == u);
    } else {
        assert(trim_start(u) == u);
        assert(trim_end(u) == u);
    }
}


/// `trim_start` drops a prefix made of whitespace.
proof fn lemma_trim_start_drops(s: Seq<char>) -> (a: int)
    ensures
        0 <= a <= s.len(),
        trim_start(s) == s.skip(a),
        forall|i: int| 0 <= i < a ==> is_space(s[i]),
    decreases s.len(),
{
    if s.len() > 0 && is_space(s[0]) {
        let a1 = lemma_trim_start_drops(s.drop_first());
        assert(s.drop_first().skip(a1) =~= s.skip(a1 + 1));
        assert forall|i: int| 0 <= i < a1 + 1 implies is_space(s[i]) by {
            if i > 0 {
                assert(s[i] == s.drop_first()[i - 1]);
            }
        }
        a1 + 1
    } else {
        assert(s.skip(0) =~= s);
        0
    }
}

/// `trim_end` drops a suffix made of whitespace.
proof fn lemma_trim_end_drops(s: Seq<char>)
    ensures
        trim_end(s).len() <= s.len(),
        trim_end(s) == s.take(trim_end(s).len() as int),
        forall|i: int| trim_end(s).len() <= i < s.len() ==> is_space(s[i]),
    decreases s.len(),
{
    lemma_trim_end_shape(s);
    if s.len() > 0 && is_space(s.last()) {
        lemma_trim_end_drops(s.drop_last());
        assert forall|i: int| trim_end(s).len() <= i < s.len() implies is_space(s[i]) by {
            if i < s.len() - 1 {
                assert(s[i] == s.drop_last()[i]);
            }
        }
    }
}

/// What `trim` gives: the part of `s` between a prefix and a suffix made
/// only of whitespace, itself empty or starting and ending with a
/// non-space; where it is empty, `s` is all whitespace.
pub proof fn lemma_trim_removes_only_whitespace(s: Seq<char>)
    ensures
        exists|a: int, b: int|
            {
                &&& 0 <= a <= b <= s.len()
                &&& trim(s) == s.subrange(a, b)
                &&& forall|i: int| 0 <= i < a ==> is_space(#[trigger] s[i])
                &&& forall|i: int| b <= i < s.len() ==> is_space(#[trigger] s[i])
                &&& a < b ==> !is_space(s[a]) && !is_space(s[b - 1])
            },
        trim(s).len() == 0 ==> forall|i: int| 0 <= i < s.len() ==> is_space(#[trigger] s[i]),
{
    let a = lemma_trim_start_drops(s);
    let t = trim_start(s);
    lemma_trim_start_shape(s);
    lemma_trim_end_drops(t);
    lemma_trim_end_shape(t);
    let b = a + trim_end(t).len();
    assert(trim(s) =~= s.subrange(a, b));
    assert forall|i: int| b <= i < s.len() implies is_space(#[trigger] s[i]) by {
        assert(s[i] == t[i - a]);
    }
    if a < b {
        assert(s[a] == t[0]);
        assert(s[b - 1] == trim_end(t).last());
    }
    if trim(s).len() == 0 {
        assert forall|i: int| 0 <= i < s.len() implies is_space(#[trigger] s[i]) by {
            if i >= a {
                assert(s[i] == t[i - a]);
            }
        }
    }
}

/// `split_lines` always gives at least one piece.
proof fn lemma_split_lines_nonempty(s: Seq<char>)
    ensures
        split_lines(s).len() >= 1,
    decreases s.len(),
{
    if s.len() > 0 {
        lemma_split_lines_nonempty(s.drop_last());
    }
}

/// Splitting at a newline splits the pieces there.
proof fn lemma_split_lines_concat(a: Seq<char>, b: Seq<char>)
    ensures
        split_lines(a + seq!['\n'] + b) == split_lines(a) + split_lines(b),
    decreases b.len(),
{
    let s = a + seq!['\n'] + b;
    if b.len() == 0 {
        assert(s.drop_last() =~= a);
        assert(split_lines(a).push(Seq::<char>::empty()) =~= split_lines(a) + split_lines(b));
    } else {
        let b1 = b.drop_last();
        assert(s.drop_last() =~= a + seq!['\n'] + b1);
        assert(s.last() == b.last());
        lemma_split_lines_concat(a, b1);
        lemma_split_lines_nonempty(b1);
        lemma_split_lines_nonempty(a);
        let p = split_lines(a) + split_lines(b1);
        if b.last() == '\n' {
            assert(p.push(Seq::<char>::empty()) =~= split_lines(a) + split_lines(b));
        } else {
            let q = split_lines(b1);
            assert(p.update(p.len() - 1, p.last().push(b.last())) =~= split_lines(a) + q.update(
                q.len() - 1,
                q.last().push(b.last()),
            ));
        }
    }
}

/// Keeping the non-blank trimmed pieces commutes with concatenation.
proof fn lemma_trimmed_nonblank_concat(x: Seq<Seq<char>>, y: Seq<Seq<char>>)
    ensures
        trimmed_nonblank(x + y) == trimmed_nonblank(x) + trimmed_nonblank(y),
    decreases y.len(),
{
    if y.len() == 0 {
        assert(x + y =~= x);
        assert(trimmed_nonblank(x) + trimmed_nonblank(y) =~= trimmed_nonblank(x));
    } else {
        assert((x + y).drop_last() =~= x + y.drop_last());
        assert((x + y).last() == y.last());
        lemma_trimmed_nonblank_concat(x, y.drop_last());
        let t = trim(y.last());
        if t.len() > 0 {
            assert((trimmed_nonblank(x) + trimmed_nonblank(y.drop_last())).push(t) =~= trimmed_nonblank(
                x,
            ) + trimmed_nonblank(y));
        }
    }
}

/// The lines of two texts joined by a newline are the lines of the first
/// followed by those of the second.
pub proof fn lemma_lines_split_at_newline(a: Seq<char>, b: Seq<char>)
    ensures
        nonblank_lines(a + seq!['\n'] + b) == nonblank_lines(a) + nonblank_lines(b),
{
    lemma_split_lines_concat(a, b);
    lemma_trimmed_nonblank_concat(split_lines(a), split_lines(b));
}

/// A text without a newline is one line: its trim, or no line where that
/// is blank.
pub proof fn lemma_line_without_newline(s: Seq<char>)
    requires
        !s.contains('\n'),
    ensures
        nonblank_lines(s) == if trim(s).len() > 0 {
            seq![trim(s)]
        } else {
            Seq::<Seq<char>>::empty()
        },
{
    lemma_split_one_piece(s);
    assert(seq![s].drop_last() =~= Seq::<Seq<char>>::empty());
    assert(seq![s].last() == s);
    assert(trimmed_nonblank(Seq::<Seq<char>>::empty()) == Seq::<Seq<char>>::empty());
    if trim(s).len() > 0 {
        assert(Seq::<Seq<char>>::empty().push(trim(s)) =~= seq![trim(s)]);
    }
}

/// A text without a newline is a single piece.
proof fn lemma_split_one_piece(s: Seq<char>)
    requires
        !s.contains('\n'),
    ensures
        split_lines(s) == seq![s],
    decreases s.len(),
{
    if s.len() == 0 {
        assert(s =~= Seq::<char>::empty());
    } else {
        let s1 = s.drop_last();
        assert(!s1.contains('\n')) by {
            if s1.contains('\n') {
                let j = choose|j: int| 0 <= j < s1.len() && s1[j] == '\n';
                assert(s[j] == '\n');
            }
        }
        lemma_split_one_piece(s1);
        assert(s.last() != '\n') by {
            assert(s[s.len() - 1] == s.last());
        }
        assert(s1.push(s.last()) =~= s);
        assert(seq![s1].update(0, s1.push(s.last())) =~= seq![s]);
    }
}

/// Every line is non-empty, already trimmed, and holds no newline.
pub proof fn lemma_nonblank_lines_are_lines(s: Seq<char>)
    ensures
        forall|i: int|
            0 <= i < nonblank_lines(s).len() ==> {
                &&& (#[trigger] nonblank_lines(s)[i]).len() > 0
                &&& trim(nonblank_lines(s)[i]) == nonblank_lines(s)[i]
                &&& !nonblank_lines(s)[i].contains('\n')
            },
{
    lemma_pieces_no_newline(s);
    lemma_trimmed_nonblank_shape(split_lines(s));
}

/// The pieces of a split hold no newline.
proof fn lemma_pieces_no_newline(s: Seq<char>)
    ensures
        forall|i: int| 0 <= i < split_lines(s).len() ==> !(#[trigger] split_lines(s)[i]).contains('\n'),
    decreases s.len(),
{
    if s.len() > 0 {
        lemma_pieces_no_newline(s.drop_last());
        lemma_split_lines_nonempty(s.drop_last());
        let p = split_lines(s.drop_last());
        if s.last() != '\n' {
            let l = p.last().push(s.last());
            assert(!l.contains('\n')) by {
                if l.contains('\n') {
                    let j = choose|j: int| 0 <= j < l.len() && l[j] == '\n';
                    assert(p[p.len() - 1] == p.last());
                    if j < l.len() - 1 {
                        assert(p.last()[j] == '\n');
                    }
                }
            }
        }
    }
}

/// The kept pieces are non-empty and trimmed, and hold no newline where the
/// pieces hold none.
proof fn lemma_trimmed_nonblank_shape(pieces: Seq<Seq<char>>)
    requires
        forall|i: int| 0 <= i < pieces.len() ==> !(#[trigger] pieces[i]).contains('\n'),
    ensures
        forall|i: int|
            0 <= i < trimmed_nonblank(pieces).len() ==> {
                &&& (#[trigger] trimmed_nonblank(pieces)[i]).len() > 0
                &&& trim(trimmed_nonblank(pieces)[i]) == trimmed_nonblank(pieces)[i]
                &&& !trimmed_nonblank(pieces)[i].contains('\n')
            },
    decreases pieces.len(),
{
    if pieces.len() > 0 {
        let init = pieces.drop_last();
        assert forall|i: int| 0 <= i < init.len() implies !(#[trigger] init[i]).contains('\n') by {
            assert(init[i] == pieces[i]);
        }
        lemma_trimmed_nonblank_shape(init);
        let last = pieces.last();
        assert(last == pieces[pieces.len() - 1]);
        let t = trim(last);
        lemma_trim_idempotent(last);
        lemma_trim_removes_only_whitespace(last);
        assert(!t.contains('\n')) by {
            let (a, b) = choose|a: int, b: int|
                {
                    &&& 0 <= a <= b <= last.len()
                    &&& trim(last) == last.subrange(a, b)
                    &&& forall|i: int| 0 <= i < a ==> is_space(#[trigger] last[i])
                    &&& forall|i: int| b <= i < last.len() ==> is_space(#[trigger] last[i])
                    &&& a < b ==> !is_space(last[a]) && !is_space(last[b - 1])
                };
            if t.contains('\n') {
                let j = choose|j: int| 0 <= j < t.len() && t[j] == '\n';
                assert(last[a + j] == '\n');
            }
        }
        let rest = trimmed_nonblank(init);
        if t.len() > 0 {
            assert forall|i: int| 0 <= i < trimmed_nonblank(pieces).len() implies {
                &&& (#[trigger] trimmed_nonblank(pieces)[i]).len() > 0
                &&& trim(trimmed_nonblank(pieces)[i]) == trimmed_nonblank(pieces)[i]
                &&& !trimmed_nonblank(pieces)[i].contains('\n')
            } by {
                if i < rest.len() {
                    assert(trimmed_nonblank(pieces)[i] == rest[i]);
                } else {
                    assert(trimmed_nonblank(pieces)[i] == t);
                }
            }
        }
    }
}


/// Joining one more part adds the separator and the part at the end; one
/// part joins to itself and no parts to nothing.
pub proof fn lemma_join_push(parts: Seq<Seq<char>>, sep: Seq<char>, part: Seq<char>)
    ensures
        join(parts.push(part), sep) == if parts.len() == 0 {
            part
        } else {
            join(parts, sep) + sep + part
        },
        join(Seq::<Seq<char>>::empty(), sep) == Seq::<char>::empty(),
{
    assert(parts.push(part).drop_last() =~= parts);
    assert(parts.push(part).last() == part);
    if parts.len() == 0 {
        assert(parts.push(part)[0] == part);
    }
}

} // verus!
