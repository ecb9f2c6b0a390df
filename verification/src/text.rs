//! Operations on text, stated over sequences of characters.

use vstd::prelude::*;

verus! {

/// The model of a list of strings: the characters of each of them.
pub open spec fn texts(strings: Seq<String>) -> Seq<Seq<char>> {
    Seq::new(strings.len(), |i: int| strings[i]@)
}

/// `String::push` of the standard library appends one character to the end of the string.
pub assume_specification[ String::push ](s: &mut String, c: char)
    ensures
        final(s)@ == old(s)@.push(c),
;

/// The characters with the Unicode property `White_Space`.
pub open spec fn white_space(c: char) -> bool {
    let u = c as int;
    ||| 0x9 <= u <= 0xd
    ||| u == 0x20
    ||| u == 0x85
    ||| u == 0xa0
    ||| u == 0x1680
    ||| 0x2000 <= u <= 0x200a
    ||| u == 0x2028
    ||| u == 0x2029
    ||| u == 0x202f
    ||| u == 0x205f
    ||| u == 0x3000
}

/// Whether `c` has the Unicode property `White_Space`.
pub fn is_white_space(c: char) -> (res: bool)
    ensures
        res == white_space(c),
{
    let u: u32 = c as u32;
    (0x9 <= u && u <= 0xd) || u == 0x20 || u == 0x85 || u == 0xa0 || u == 0x1680 || (0x2000 <= u
        && u <= 0x200a) || u == 0x2028 || u == 0x2029 || u == 0x202f || u == 0x205f || u == 0x3000
}

/// The characters of `s`, in order.
pub fn chars_of(s: &str) -> (res: Vec<char>)
    ensures
        res@ == s@,
{
    let mut chars: Vec<char> = Vec::new();
    for c in it: s.chars()
        invariant
            it.seq() == s@,
            chars@ == s@.take(it.index() as int),
    {
        chars.push(c);
    }
    chars
}

/// The string made of the characters `chars[from]` up to, not including, `chars[to]`.
pub fn text_between(chars: &Vec<char>, from: usize, to: usize) -> (res: String)
    requires
        from <= to <= chars@.len(),
    ensures
        res@ == chars@.subrange(from as int, to as int),
{
    let mut s = String::new();
    let mut i: usize = from;
    while i < to
        invariant
            from <= i <= to <= chars@.len(),
            s@ == chars@.subrange(from as int, i as int),
        decreases to - i,
    {
        s.push(chars[i]);
        i += 1;
    }
    s
}

/// A copy of a list of strings.
pub fn copy_texts(strings: &Vec<String>) -> (res: Vec<String>)
    ensures
        texts(res@) == texts(strings@),
{
    let mut copy: Vec<String> = Vec::new();
    let mut i: usize = 0;
    while i < strings.len()
        invariant
            i <= strings@.len(),
            texts(copy@) == texts(strings@).take(i as int),
        decreases strings@.len() - i,
    {
        let ghost before = texts(copy@);
        copy.push(strings[i].clone());
        assert(texts(copy@) =~= before.push(strings@[i as int]@));
        assert(texts(copy@) =~= texts(strings@).take(i + 1));
        i += 1;
    }
    assert(texts(copy@) =~= texts(strings@));
    copy
}

/// `a` followed by `b`.
pub fn concat2(a: &str, b: &str) -> (res: String)
    ensures
        res@ == a@ + b@,
{
    let mut s = a.to_owned();
    s.append(b);
    s
}

/// `a` followed by `b` and `c`.
pub fn concat3(a: &str, b: &str, c: &str) -> (res: String)
    ensures
        res@ == a@ + b@ + c@,
{
    let mut s = a.to_owned();
    s.append(b);
    s.append(c);
    s
}

/// Whether `a` and `b` agree on their first `k` characters and `a` is the smaller one from there
/// on: it has ended there, or its next character has the smaller code point.
pub open spec fn below_at(a: Seq<char>, b: Seq<char>, k: int) -> bool {
    &&& 0 <= k <= a.len()
    &&& k < b.len()
    &&& forall|j: int| 0 <= j < k ==> a[j] == b[j]
    &&& k == a.len() || (a[k] as int) < (b[k] as int)
}

/// The lexicographic order of texts by code point, which is also the order of their UTF-8 bytes.
pub open spec fn text_lt(a: Seq<char>, b: Seq<char>) -> bool {
    exists|k: int| below_at(a, b, k)
}

/// How one text stands to another in the order of texts.
#[derive(Clone, Copy, Debug, PartialEq, Eq, Structural)]
pub enum TextOrder {
    /// The first text comes before the second.
    Before,
    /// The two texts are the same.
    Same,
    /// The first text comes after the second.
    After,
}

/// Compares two texts in the lexicographic order by code point.
pub fn text_order(a: &str, b: &str) -> (res: TextOrder)
    ensures
        res is Before <==> text_lt(a@, b@),
        res is Same <==> a@ == b@,
        res is After <==> text_lt(b@, a@),
{
    let x = chars_of(a);
    let y = chars_of(b);
    let mut i: usize = 0;
    while i < x.len() && i < y.len() && x[i] == y[i]
        invariant
            x@ == a@,
            y@ == b@,
            i <= x@.len(),
            i <= y@.len(),
            forall|j: int| 0 <= j < i ==> x@[j] == y@[j],
        decreases x@.len() - i,
    {
        i += 1;
    }
    proof {
        law_text_order_is_strict(a@, b@);
    }
    if i == x.len() {
        if i == y.len() {
            assert(a@ =~= b@);
            TextOrder::Same
        } else {
            assert(below_at(a@, b@, i as int));
            TextOrder::Before
        }
    } else if i == y.len() {
        assert(below_at(b@, a@, i as int));
        TextOrder::After
    } else {
        let cx: char = x[i];
        let cy: char = y[i];
        if cx < cy {
            assert(below_at(a@, b@, i as int));
            TextOrder::Before
        } else {
            assert(below_at(b@, a@, i as int));
            TextOrder::After
        }
    }
}

/// Whether two texts are the same.
pub fn same_text(a: &str, b: &str) -> (res: bool)
    ensures
        res == (a@ == b@),
{
    match text_order(a, b) {
        TextOrder::Same => true,
        _ => false,
    }
}

/// No text comes before itself, and of two texts at most one comes before the other.
pub proof fn law_text_order_is_strict(a: Seq<char>, b: Seq<char>)
    ensures
        !text_lt(a, a),
        !(text_lt(a, b) && text_lt(b, a)),
{
    if text_lt(a, a) {
        let k = choose|k: int| below_at(a, a, k);
        assert(below_at(a, a, k));
    }
    if text_lt(a, b) && text_lt(b, a) {
        let k = choose|k: int| below_at(a, b, k);
        let m = choose|m: int| below_at(b, a, m);
        assert(below_at(a, b, k) && below_at(b, a, m));
    }
}

/// The order of texts is transitive.
pub proof fn law_text_order_is_transitive(a: Seq<char>, b: Seq<char>, c: Seq<char>)
    requires
        text_lt(a, b),
        text_lt(b, c),
    ensures
        text_lt(a, c),
{
    let k = choose|k: int| below_at(a, b, k);
    let m = choose|m: int| below_at(b, c, m);
    assert(below_at(a, b, k) && below_at(b, c, m));
    if k <= m {
        assert(below_at(a, c, k));
    } else {
        assert(below_at(a, c, m));
    }
}

/// Of two different texts one comes before the other.
pub proof fn law_text_order_is_total(a: Seq<char>, b: Seq<char>)
    ensures
        a == b || text_lt(a, b) || text_lt(b, a),
{
    if a != b {
        let k = first_difference(a, b, 0);
        lemma_first_difference(a, b, 0);
        if k == a.len() || (k < b.len() && (a[k] as int) < (b[k] as int)) {
            if k == b.len() {
                assert(a =~= b);
            }
            assert(below_at(a, b, k));
        } else {
            assert(below_at(b, a, k));
        }
    }
}

/// The first position from `k` on at which `a` and `b` differ or one of them has ended.
spec fn first_difference(a: Seq<char>, b: Seq<char>, k: int) -> int
    decreases a.len() - k,
{
    if 0 <= k < a.len() && k < b.len() && a[k] == b[k] {
        first_difference(a, b, k + 1)
    } else {
        k
    }
}

proof fn lemma_first_difference(a: Seq<char>, b: Seq<char>, k: int)
    requires
        0 <= k <= a.len(),
        k <= b.len(),
        forall|j: int| 0 <= j < k ==> a[j] == b[j],
    ensures
        k <= first_difference(a, b, k) <= a.len(),
        first_difference(a, b, k) <= b.len(),
        forall|j: int| 0 <= j < first_difference(a, b, k) ==> a[j] == b[j],
        first_difference(a, b, k) < a.len() && first_difference(a, b, k) < b.len()
            ==> a[first_difference(a, b, k)] != b[first_difference(a, b, k)],
    decreases a.len() - k,
{
    if k < a.len() && k < b.len() && a[k] == b[k] {
        lemma_first_difference(a, b, k + 1);
    }
}

/// `s` without the white space at its start.
pub open spec fn trim_start(s: Seq<char>) -> Seq<char>
    decreases s.len(),
{
    if s.len() > 0 && white_space(s[0]) {
        trim_start(s.drop_first())
    } else {
        s
    }
}

/// `s` without the white space at its end.
pub open spec fn trim_end(s: Seq<char>) -> Seq<char>
    decreases s.len(),
{
    if s.len() > 0 && white_space(s.last()) {
        trim_end(s.drop_last())
    } else {
        s
    }
}

/// `s` without the white space at its start and at its end.
pub open spec fn trim(s: Seq<char>) -> Seq<char> {
    trim_end(trim_start(s))
}

/// Whether `s` holds nothing but white space.
pub open spec fn blank(s: Seq<char>) -> bool {
    forall|i: int| 0 <= i < s.len() ==> white_space(s[i])
}

/// Removes the white space at the start and at the end of `s`.
pub fn trimmed(s: &str) -> (res: String)
    ensures
        res@ == trim(s@),
{
    let chars = chars_of(s);
    let mut from: usize = 0;
    assert(chars@.skip(0) =~= chars@);
    while from < chars.len() && is_white_space(chars[from])
        invariant
            from <= chars@.len(),
            trim_start(chars@.skip(from as int)) == trim_start(chars@),
        decreases chars@.len() - from,
    {
        assert(chars@.skip(from as int).drop_first() =~= chars@.skip(from + 1));
        from += 1;
    }
    let ghost rest = chars@.skip(from as int);
    assert(trim_start(chars@) == rest);
    let mut to: usize = chars.len();
    assert(chars@.subrange(from as int, to as int) =~= rest);
    while from < to && is_white_space(chars[to - 1])
        invariant
            from <= to <= chars@.len(),
            trim_end(chars@.subrange(from as int, to as int)) == trim_end(rest),
        decreases to - from,
    {
        assert(chars@.subrange(from as int, to as int).drop_last() =~= chars@.subrange(
            from as int,
            to - 1,
        ));
        to -= 1;
    }
    text_between(&chars, from, to)
}

/// Whether `s` holds nothing but white space.
pub fn is_blank(s: &str) -> (res: bool)
    ensures
        res == blank(s@),
{
    let chars = chars_of(s);
    let mut i: usize = 0;
    while i < chars.len()
        invariant
            chars@ == s@,
            i <= chars@.len(),
            forall|j: int| 0 <= j < i ==> white_space(chars@[j]),
        decreases chars@.len() - i,
    {
        if !is_white_space(chars[i]) {
            return false;
        }
        i += 1;
    }
    true
}

/// Trimming a text leaves nothing exactly when the text is blank.
pub proof fn law_trim_leaves_nothing_of_blank_text(s: Seq<char>)
    ensures
        trim(s).len() == 0 <==> blank(s),
{
    lemma_trim_start(s);
    lemma_trim_end(trim_start(s));
    if blank(s) {
        assert(blank(trim_start(s)));
    }
}

proof fn lemma_trim_start(s: Seq<char>)
    ensures
        trim_start(s).len() <= s.len(),
        trim_start(s) == s.skip(s.len() - trim_start(s).len()),
        forall|i: int| 0 <= i < s.len() - trim_start(s).len() ==> white_space(s[i]),
        trim_start(s).len() > 0 ==> !white_space(trim_start(s)[0]),
    decreases s.len(),
{
    if s.len() > 0 && white_space(s[0]) {
        let t = s.drop_first();
        lemma_trim_start(t);
        let n = trim_start(t).len();
        assert(s.skip(s.len() - n) =~= t.skip(t.len() - n));
        assert forall|i: int| 0 <= i < s.len() - n implies white_space(s[i]) by {
            if i > 0 {
                assert(white_space(t[i - 1]));
            }
        }
    } else {
        assert(s.skip(0) =~= s);
    }
}

proof fn lemma_trim_end(s: Seq<char>)
    ensures
        trim_end(s).len() <= s.len(),
        trim_end(s) == s.take(trim_end(s).len() as int),
        forall|i: int| trim_end(s).len() <= i < s.len() ==> white_space(s[i]),
        trim_end(s).len() > 0 ==> !white_space(trim_end(s).last()),
    decreases s.len(),
{
    if s.len() > 0 && white_space(s.last()) {
        let t = s.drop_last();
        lemma_trim_end(t);
        let n = trim_end(t).len();
        assert(s.take(n as int) =~= t.take(n as int));
        assert forall|i: int| n <= i < s.len() implies white_space(s[i]) by {
            if i < s.len() - 1 {
                assert(white_space(t[i]));
            }
        }
    } else {
        assert(s.take(s.len() as int) =~= s);
    }
}

/// `line` without one carriage return at its end, if it has one.
pub open spec fn without_cr(line: Seq<char>) -> Seq<char> {
    if line.len() > 0 && line.last() == '\r' {
        line.drop_last()
    } else {
        line
    }
}

/// The lines of the text `line + rest`, where `line` is the part of the first line that has been
/// read already.
pub open spec fn lines_from(line: Seq<char>, rest: Seq<char>) -> Seq<Seq<char>>
    decreases rest.len(),
{
    if rest.len() == 0 {
        if line.len() == 0 {
            seq![]
        } else {
            seq![line]
        }
    } else if rest[0] == '\n' {
        seq![without_cr(line)] + lines_from(seq![], rest.drop_first())
    } else {
        lines_from(line.push(rest[0]), rest.drop_first())
    }
}

/// The lines of `s`. A line ends with a line feed, or with a carriage return and a line feed, and
/// neither belongs to the line; the last line may end without them.
pub open spec fn lines(s: Seq<char>) -> Seq<Seq<char>> {
    lines_from(seq![], s)
}

/// Splits `s` into its lines.
pub fn lines_of(s: &str) -> (res: Vec<String>)
    ensures
        texts(res@) == lines(s@),
{
    let chars = chars_of(s);
    let mut done: Vec<String> = Vec::new();
    let mut start: usize = 0;
    let mut i: usize = 0;
    assert(chars@.skip(0) =~= chars@);
    assert(chars@.subrange(0, 0) =~= seq![]);
    assert(texts(done@) + lines(s@) =~= lines(s@));
    while i < chars.len()
        invariant
            chars@ == s@,
            start <= i <= chars@.len(),
            lines(s@) == texts(done@) + lines_from(
                chars@.subrange(start as int, i as int),
                chars@.skip(i as int),
            ),
        decreases chars@.len() - i,
    {
        let ghost line = chars@.subrange(start as int, i as int);
        let ghost rest = chars@.skip(i as int);
        let ghost before = texts(done@);
        assert(rest[0] == chars@[i as int]);
        assert(rest.drop_first() =~= chars@.skip(i + 1));
        if chars[i] == '\n' {
            let end: usize = if start < i && chars[i - 1] == '\r' {
                i - 1
            } else {
                i
            };
            let text = text_between(&chars, start, end);
            assert(text@ =~= without_cr(line));
            done.push(text);
            assert(texts(done@) =~= before.push(without_cr(line)));
            start = i + 1;
            assert(chars@.subrange(start as int, i + 1) =~= seq![]);
            assert(lines(s@) =~= texts(done@) + lines_from(seq![], rest.drop_first()));
        } else {
            assert(chars@.subrange(start as int, i + 1) =~= line.push(rest[0]));
        }
        i += 1;
    }
    assert(chars@.skip(i as int) =~= seq![]);
    let ghost line = chars@.subrange(start as int, i as int);
    if start < i {
        let ghost before = texts(done@);
        let text = text_between(&chars, start, i);
        done.push(text);
        assert(texts(done@) =~= before + seq![line]);
    } else {
        assert(texts(done@) =~= texts(done@) + lines_from(line, seq![]));
    }
    done
}

/// The texts in `parts`, one after the other, with `sep` between each two of them.
pub open spec fn joined(parts: Seq<Seq<char>>, sep: Seq<char>) -> Seq<char>
    decreases parts.len(),
{
    if parts.len() == 0 {
        seq![]
    } else if parts.len() == 1 {
        parts[0]
    } else {
        joined(parts.drop_last(), sep) + sep + parts.last()
    }
}

/// Joins the strings in `parts`, with `sep` between each two of them.
pub fn join(parts: &Vec<String>, sep: &str) -> (res: String)
    ensures
        res@ == joined(texts(parts@), sep@),
{
    let mut s = String::new();
    let mut i: usize = 0;
    while i < parts.len()
        invariant
            i <= parts@.len(),
            s@ == joined(texts(parts@).take(i as int), sep@),
        decreases parts@.len() - i,
    {
        let ghost all = texts(parts@);
        assert(all.take(i + 1).drop_last() =~= all.take(i as int));
        if i > 0 {
            s.append(sep);
        }
        s.append(parts[i].as_str());
        assert(s@ =~= joined(all.take(i + 1), sep@));
        i += 1;
    }
    assert(texts(parts@).take(i as int) =~= texts(parts@));
    s
}

/// Whether `s` fits on one line and is read back unchanged from it.
pub open spec fn one_line(s: Seq<char>) -> bool {
    &&& !s.contains('\n')
    &&& s.len() > 0 ==> s.last() != '\r'
}

/// Texts that fit on a line each, joined by line feeds and ended by one, are the lines of what
/// comes out.
pub proof fn law_joined_lines_are_read_back(parts: Seq<Seq<char>>)
    requires
        parts.len() > 0,
        forall|i: int| 0 <= i < parts.len() ==> one_line(parts[i]),
    ensures
        lines(joined(parts, seq!['\n']) + seq!['\n']) == parts,
    decreases parts.len(),
{
    let sep = seq!['\n'];
    if parts.len() == 1 {
        lemma_line_is_read(seq![], parts[0]);
        assert(parts[0] + sep =~= parts[0].push('\n'));
        assert(seq![] + parts[0] =~= parts[0]);
        assert(seq![parts[0]] =~= parts);
    } else {
        let front = parts.drop_last();
        let last = parts.last();
        law_joined_lines_are_read_back(front);
        let head = joined(front, sep);
        assert(one_line(parts[parts.len() - 1]));
        lemma_lines_split(seq![], head, last + sep);
        assert(head + sep =~= head.push('\n'));
        assert(joined(parts, sep) + sep =~= head.push('\n') + (last + sep));
        lemma_line_is_read(seq![], last);
        assert(last + sep =~= last.push('\n'));
        assert(seq![] + last =~= last);
        assert(front + seq![last] =~= parts);
    }
}

proof fn lemma_line_is_read(line: Seq<char>, part: Seq<char>)
    requires
        !part.contains('\n'),
        (line + part).len() > 0 ==> (line + part).last() != '\r',
    ensures
        lines_from(line, part.push('\n')) == seq![line + part],
    decreases part.len(),
{
    let rest = part.push('\n');
    if part.len() == 0 {
        assert(rest.drop_first() =~= seq![]);
        assert(line + part =~= line);
        assert(lines_from(seq![], seq![]) =~= Seq::<Seq<char>>::empty());
        assert(seq![without_cr(line)] + lines_from(seq![], rest.drop_first()) =~= seq![line + part]);
    } else {
        let c = part[0];
        let tail = part.drop_first();
        assert(part.contains(c));
        assert(rest.drop_first() =~= tail.push('\n'));
        assert(line.push(c) + tail =~= line + part);
        assert forall|x: char| tail.contains(x) implies part.contains(x) by {
            let j = choose|j: int| 0 <= j < tail.len() && tail[j] == x;
            assert(part[j + 1] == x);
        }
        lemma_line_is_read(line.push(c), tail);
    }
}

proof fn lemma_lines_split(line: Seq<char>, a: Seq<char>, b: Seq<char>)
    ensures
        lines_from(line, a.push('\n') + b) == lines_from(line, a.push('\n')) + lines_from(
            seq![],
            b,
        ),
    decreases a.len(),
{
    let first = a.push('\n');
    let whole = first + b;
    if a.len() == 0 {
        assert(whole.drop_first() =~= b);
        assert(first.drop_first() =~= seq![]);
        assert(lines_from(seq![], seq![]) =~= Seq::<Seq<char>>::empty());
        assert(lines_from(line, first) =~= seq![without_cr(line)]);
    } else {
        let tail = a.drop_first();
        assert(first.drop_first() =~= tail.push('\n'));
        assert(whole.drop_first() =~= tail.push('\n') + b);
        if a[0] == '\n' {
            lemma_lines_split(seq![], tail, b);
            let done = seq![without_cr(line)];
            assert(lines_from(line, whole) =~= done + (lines_from(seq![], tail.push('\n'))
                + lines_from(seq![], b)));
            assert(lines_from(line, whole) =~= lines_from(line, first) + lines_from(seq![], b));
        } else {
            lemma_lines_split(line.push(a[0]), tail, b);
        }
    }
}

/// The texts of a list of strings are those of its strings, one for each and in order.
pub proof fn law_list_is_its_texts(strings: Seq<String>)
    ensures
        texts(strings).len() == strings.len(),
        forall|i: int| 0 <= i < strings.len() ==> #[trigger] texts(strings)[i] == strings[i]@,
{
}

/// The first character in which two texts differ decides their order by its code point, whatever
/// follows it; and a text comes before every longer one that starts with it.
pub proof fn law_text_order_goes_by_code_points(
    start: Seq<char>,
    c: char,
    d: char,
    x: Seq<char>,
    y: Seq<char>,
)
    ensures
        (c as int) < (d as int) ==> text_lt(start.push(c) + x, start.push(d) + y),
        x.len() > 0 ==> text_lt(start, start + x),
{
    let k = start.len() as int;
    if (c as int) < (d as int) {
        assert(below_at(start.push(c) + x, start.push(d) + y, k));
    }
    if x.len() > 0 {
        assert(below_at(start, start + x, k));
    }
}

/// Nothing is blank, one character is blank if it is white space, and two texts one after the other
/// are blank exactly when both are.
pub proof fn law_blank_text_is_made_of_white_space(c: char, a: Seq<char>, b: Seq<char>)
    ensures
        blank(seq![]),
        blank(seq![c]) <==> white_space(c),
        blank(a + b) <==> blank(a) && blank(b),
{
    if blank(seq![c]) {
        assert(white_space(seq![c][0]));
    }
    if blank(a + b) {
        assert forall|i: int| 0 <= i < a.len() implies white_space(a[i]) by {
            assert((a + b)[i] == a[i]);
        }
        assert forall|i: int| 0 <= i < b.len() implies white_space(b[i]) by {
            assert((a + b)[a.len() + i] == b[i]);
        }
    }
}

/// What trimming leaves of a text is what stands between the white space at its two ends.
pub proof fn law_trim_removes_white_space_around(
    before: Seq<char>,
    middle: Seq<char>,
    after: Seq<char>,
)
    requires
        forall|i: int| 0 <= i < before.len() ==> white_space(before[i]),
        forall|i: int| 0 <= i < after.len() ==> white_space(after[i]),
        middle.len() > 0 ==> !white_space(middle[0]) && !white_space(middle.last()),
    ensures
        trim(before + middle + after) == middle,
{
    let rest = middle + after;
    lemma_start_is_trimmed(before, rest);
    assert(before + middle + after =~= before + rest);
    if middle.len() == 0 {
        assert(rest =~= after);
        law_trim_leaves_nothing_of_blank_text(rest);
        assert(trim_end(trim_start(rest)) =~= middle);
    } else {
        assert(rest[0] == middle[0]);
        lemma_end_is_trimmed(middle, after);
    }
}

proof fn lemma_start_is_trimmed(before: Seq<char>, rest: Seq<char>)
    requires
        forall|i: int| 0 <= i < before.len() ==> white_space(before[i]),
    ensures
        trim_start(before + rest) == trim_start(rest),
    decreases before.len(),
{
    if before.len() == 0 {
        assert(before + rest =~= rest);
    } else {
        assert((before + rest)[0] == before[0]);
        assert((before + rest).drop_first() =~= before.drop_first() + rest);
        lemma_start_is_trimmed(before.drop_first(), rest);
    }
}

proof fn lemma_end_is_trimmed(rest: Seq<char>, after: Seq<char>)
    requires
        forall|i: int| 0 <= i < after.len() ==> white_space(after[i]),
        rest.len() > 0,
        !white_space(rest.last()),
    ensures
        trim_end(rest + after) == rest,
    decreases after.len(),
{
    if after.len() == 0 {
        assert(rest + after =~= rest);
    } else {
        assert((rest + after).last() == after.last());
        assert((rest + after).drop_last() =~= rest + after.drop_last());
        lemma_end_is_trimmed(rest, after.drop_last());
    }
}

/// The first line of a text goes up to the first line feed, without a carriage return before it,
/// and the lines of what follows come after it. A text without a line feed is one line, unless it
/// is empty.
pub proof fn law_lines_end_at_line_feeds(line: Seq<char>, rest: Seq<char>)
    requires
        forall|i: int| 0 <= i < line.len() ==> line[i] != '\n',
    ensures
        line.len() == 0 || line.last() != '\r' ==> lines(line + seq!['\n'] + rest) == seq![line]
            + lines(rest),
        lines(line + seq!['\r', '\n'] + rest) == seq![line] + lines(rest),
        line.len() > 0 ==> lines(line) == seq![line],
        line.len() == 0 ==> lines(line) == Seq::<Seq<char>>::empty(),
{
    let none = Seq::<char>::empty();
    assert(none + line =~= line);
    lemma_first_line(none, line);
    lemma_lines_split(none, line, rest);
    assert(line + seq!['\n'] + rest =~= line.push('\n') + rest);
    let ended = line.push('\r');
    assert(none + ended =~= ended);
    assert(ended.drop_last() =~= line);
    lemma_first_line(none, ended);
    lemma_lines_split(none, ended, rest);
    assert(line + seq!['\r', '\n'] + rest =~= ended.push('\n') + rest);
    lemma_only_line(none, line);
}

proof fn lemma_first_line(line: Seq<char>, part: Seq<char>)
    requires
        forall|i: int| 0 <= i < part.len() ==> part[i] != '\n',
    ensures
        lines_from(line, part.push('\n')) == seq![without_cr(line + part)],
    decreases part.len(),
{
    let rest = part.push('\n');
    if part.len() == 0 {
        assert(rest.drop_first() =~= seq![]);
        assert(line + part =~= line);
        assert(lines_from(seq![], seq![]) =~= Seq::<Seq<char>>::empty());
        assert(lines_from(line, rest) =~= seq![without_cr(line + part)]);
    } else {
        let tail = part.drop_first();
        assert(rest[0] == part[0]);
        assert(rest.drop_first() =~= tail.push('\n'));
        assert(line.push(part[0]) + tail =~= line + part);
        lemma_first_line(line.push(part[0]), tail);
    }
}

proof fn lemma_only_line(line: Seq<char>, part: Seq<char>)
    requires
        forall|i: int| 0 <= i < part.len() ==> part[i] != '\n',
    ensures
        (line + part).len() > 0 ==> lines_from(line, part) == seq![line + part],
        (line + part).len() == 0 ==> lines_from(line, part) == Seq::<Seq<char>>::empty(),
    decreases part.len(),
{
    if part.len() == 0 {
        assert(line + part =~= line);
    } else {
        let tail = part.drop_first();
        assert(line.push(part[0]) + tail =~= line + part);
        lemma_only_line(line.push(part[0]), tail);
    }
}

/// Joining no texts gives nothing, joining one gives that text, and joining two lists one after the
/// other gives what each of them gives, with the separator between.
pub proof fn law_joining_puts_the_separator_between(
    text: Seq<char>,
    a: Seq<Seq<char>>,
    b: Seq<Seq<char>>,
    sep: Seq<char>,
)
    ensures
        joined(seq![], sep) == Seq::<char>::empty(),
        joined(seq![text], sep) == text,
        a.len() > 0 && b.len() > 0 ==> joined(a + b, sep) == joined(a, sep) + sep + joined(b, sep),
    decreases b.len(),
{
    if a.len() > 0 && b.len() > 0 {
        let front = b.drop_last();
        assert((a + b).drop_last() =~= a + front);
        assert((a + b).last() == b.last());
        if front.len() == 0 {
            assert(a + front =~= a);
        } else {
            law_joining_puts_the_separator_between(text, a, front, sep);
            assert(joined(a + b, sep) =~= joined(a, sep) + sep + joined(b, sep));
        }
    }
}

} // verus!
