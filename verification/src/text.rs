//! Text: decimal numbers, lines, substrings, and quoting for JSON.
use vstd::prelude::*;
use vstd::string::*;

verus! {

broadcast use vstd::string::axiom_spec_iter;

/// `String::push` puts a character behind the text.
pub assume_specification[ String::push ](s: &mut String, c: char)
    ensures
        final(s)@ == old(s)@.push(c),
;

/// The decimal digit of a number below ten.
pub open spec fn digit(d: nat) -> char {
    (48 + d) as char
}

/// A number in decimal, without leading zeros.
pub open spec fn decimal(n: nat) -> Seq<char>
    decreases n,
{
    if n < 10 {
        seq![digit(n)]
    } else {
        decimal(n / 10).push(digit(n % 10))
    }
}

/// Writes a number in decimal behind a text.
pub fn push_decimal(s: &mut String, n: u64)
    ensures
        final(s)@ == old(s)@ + decimal(n as nat),
    decreases n,
{
    if n >= 10 {
        push_decimal(s, n / 10);
    }
    let d: u8 = (n % 10) as u8;
    s.push((48u8 + d) as char);
    assert(s@ =~= old(s)@ + decimal(n as nat));
}

/// The characters of a text.
pub fn chars_of(s: &str) -> (v: Vec<char>)
    ensures
        v@ == s@,
{
    let mut v: Vec<char> = Vec::new();
    for c in it: s.chars()
        invariant
            it.seq() == s@,
            v@ == s@.take(it.index() as int),
    {
        v.push(c);
        proof {
            assert(v@ =~= s@.take(it.index() + 1));
        }
    }
    proof {
        assert(s@.take(s@.len() as int) =~= s@);
    }
    v
}

/// A text of the given characters.
pub fn text_of(v: &Vec<char>) -> (s: String)
    ensures
        s@ == v@,
{
    let mut s: String = String::new();
    let mut i: usize = 0;
    while i < v.len()
        invariant
            i <= v@.len(),
            s@ == v@.take(i as int),
        decreases v@.len() - i,
    {
        s.push(v[i]);
        assert(s@ =~= v@.take(i + 1));
        i = i + 1;
    }
    assert(v@.take(i as int) =~= v@);
    s
}

/// Whether a text stands somewhere in another.
pub open spec fn occurs(needle: Seq<char>, hay: Seq<char>) -> bool {
    exists|k: int|
        0 <= k <= hay.len() - needle.len() && #[trigger] hay.subrange(k, k + needle.len())
            == needle
}

/// Whether a text stands at a place in another.
fn occurs_at(needle: &Vec<char>, hay: &Vec<char>, k: usize) -> (r: bool)
    requires
        k + needle@.len() <= hay@.len(),
    ensures
        r == (hay@.subrange(k as int, k + needle@.len()) == needle@),
{
    let end: usize = hay.len();
    let mut i: usize = 0;
    let ghost part = hay@.subrange(k as int, k + needle@.len());
    while i < needle.len()
        invariant
            i <= needle@.len(),
            k + needle@.len() <= hay@.len(),
            end == hay@.len(),
            part == hay@.subrange(k as int, k + needle@.len()),
            forall|j: int| 0 <= j < i ==> #[trigger] part[j] == needle@[j],
        decreases needle@.len() - i,
    {
        if hay[k + i] != needle[i] {
            assert(part[i as int] != needle@[i as int]);
            return false;
        }
        i = i + 1;
    }
    assert(part =~= needle@);
    true
}

/// Looks for a text in another.
pub fn contains(hay: &str, needle: &str) -> (r: bool)
    ensures
        r == occurs(needle@, hay@),
{
    let h: Vec<char> = chars_of(hay);
    let n: Vec<char> = chars_of(needle);
    if n.len() > h.len() {
        return false;
    }
    let mut k: usize = 0;
    while k <= h.len() - n.len()
        invariant
            h@ == hay@,
            n@ == needle@,
            n@.len() <= h@.len(),
            k <= h@.len() - n@.len() + 1,
            forall|j: int|
                0 <= j < k ==> #[trigger] hay@.subrange(j, j + needle@.len()) != needle@,
        decreases h@.len() - k,
    {
        if occurs_at(&n, &h, k) {
            return true;
        }
        if k == h.len() - n.len() {
            return false;
        }
        k = k + 1;
    }
    false
}

/// A line without the carriage return at its end, if it has one there.
pub open spec fn strip_return(line: Seq<char>) -> Seq<char> {
    if line.len() > 0 && line.last() == '\r' {
        line.drop_last()
    } else {
        line
    }
}

/// The lines of a text that end in a line feed, and what stands behind the last line feed.
pub open spec fn split_lines(s: Seq<char>) -> (Seq<Seq<char>>, Seq<char>)
    decreases s.len(),
{
    if s.len() == 0 {
        (Seq::empty(), Seq::empty())
    } else {
        let (done, rest) = split_lines(s.drop_last());
        if s.last() == '\n' {
            (done.push(strip_return(rest)), Seq::empty())
        } else {
            (done, rest.push(s.last()))
        }
    }
}

/// The lines of a text. A line ends in a line feed, or in a carriage return and a line feed, and
/// these do not belong to it; the last line may end with the text.
pub open spec fn lines_of(s: Seq<char>) -> Seq<Seq<char>> {
    let (done, rest) = split_lines(s);
    if rest.len() == 0 {
        done
    } else {
        done.push(rest)
    }
}

/// Texts as sequences of characters.
pub open spec fn views(v: Seq<String>) -> Seq<Seq<char>> {
    v.map_values(|s: String| s@)
}

/// Splits a text into its lines.
pub fn lines(s: &str) -> (v: Vec<String>)
    ensures
        views(v@) == lines_of(s@),
{
    let mut v: Vec<String> = Vec::new();
    let mut rest: Vec<char> = Vec::new();
    assert(views(v@) =~= Seq::empty());
    for c in it: s.chars()
        invariant
            it.seq() == s@,
            (views(v@), rest@) == split_lines(s@.take(it.index() as int)),
    {
        let ghost before = v@;
        assert(s@.take(it.index() + 1).drop_last() =~= s@.take(it.index() as int));
        if c == '\n' {
            if rest.len() > 0 && rest[rest.len() - 1] == '\r' {
                let ghost line = rest@;
                rest.pop();
                assert(rest@ =~= line.drop_last());
            }
            let line: String = text_of(&rest);
            v.push(line);
            assert(views(v@) =~= views(before).push(rest@));
            rest = Vec::new();
        } else {
            rest.push(c);
        }
    }
    assert(s@.take(s@.len() as int) =~= s@);
    if rest.len() > 0 {
        let ghost before = v@;
        v.push(text_of(&rest));
        assert(views(v@) =~= views(before).push(rest@));
    }
    v
}

/// A text with a backslash before every backslash and every quotation mark.
pub open spec fn escaped(s: Seq<char>) -> Seq<char>
    decreases s.len(),
{
    if s.len() == 0 {
        Seq::empty()
    } else if s.last() == '\\' || s.last() == '"' {
        escaped(s.drop_last()).push('\\').push(s.last())
    } else {
        escaped(s.drop_last()).push(s.last())
    }
}

/// A text in quotation marks.
pub open spec fn quoted(s: Seq<char>) -> Seq<char> {
    seq!['"'] + escaped(s) + seq!['"']
}

/// Texts in quotation marks, with commas between them.
pub open spec fn quoted_list(v: Seq<Seq<char>>) -> Seq<char>
    decreases v.len(),
{
    if v.len() == 0 {
        Seq::empty()
    } else if v.len() == 1 {
        quoted(v[0])
    } else {
        quoted_list(v.drop_last()) + seq![','] + quoted(v.last())
    }
}

/// Writes a text in quotation marks behind another.
pub fn push_quoted(out: &mut String, s: &str)
    ensures
        final(out)@ == old(out)@ + quoted(s@),
{
    out.push('"');
    assert(out@ =~= old(out)@ + seq!['"'] + escaped(s@.take(0)));
    for c in it: s.chars()
        invariant
            it.seq() == s@,
            out@ == old(out)@ + seq!['"'] + escaped(s@.take(it.index() as int)),
    {
        assert(s@.take(it.index() + 1).drop_last() =~= s@.take(it.index() as int));
        if c == '\\' || c == '"' {
            out.push('\\');
        }
        out.push(c);
        assert(out@ =~= old(out)@ + seq!['"'] + escaped(s@.take(it.index() + 1)));
    }
    assert(s@.take(s@.len() as int) =~= s@);
    out.push('"');
    assert(out@ =~= old(out)@ + quoted(s@));
}

/// What stands in front of a closing quotation mark, with the backslashes taken away that protect
/// a character, and what stands behind the mark. Only a backslash or a quotation mark can be
/// protected: any other character behind a backslash is refused.
pub open spec fn read_quoted(s: Seq<char>) -> Option<(Seq<char>, Seq<char>)>
    decreases s.len(),
{
    if s.len() == 0 {
        None
    } else if s[0] == '"' {
        Some((Seq::empty(), s.skip(1)))
    } else if s[0] == '\\' {
        if s.len() == 1 || (s[1] != '\\' && s[1] != '"') {
            None
        } else {
            match read_quoted(s.skip(2)) {
                Some((text, rest)) => Some((seq![s[1]] + text, rest)),
                None => None,
            }
        }
    } else {
        match read_quoted(s.skip(1)) {
            Some((text, rest)) => Some((seq![s[0]] + text, rest)),
            None => None,
        }
    }
}

/// A text in quotation marks can be read back, whatever it holds and whatever follows it.
pub proof fn law_quoting_is_reversible(s: Seq<char>, rest: Seq<char>)
    ensures
        quoted(s).len() > 0,
        quoted(s)[0] == '"',
        read_quoted((quoted(s) + rest).skip(1)) == Some((s, rest)),
{
    assert((quoted(s) + rest).skip(1) =~= escaped(s) + (seq!['"'] + rest));
    lemma_read_escaped(s, seq!['"'] + rest);
    assert((seq!['"'] + rest).skip(1) =~= rest);
    assert(s + Seq::empty() =~= s);
}

/// Reading takes off an escaped text first, and goes on behind it.
proof fn lemma_read_escaped(s: Seq<char>, tail: Seq<char>)
    ensures
        read_quoted(escaped(s) + tail) == (match read_quoted(tail) {
            Some((text, rest)) => Some((s + text, rest)),
            None => None,
        }),
    decreases s.len(),
{
    if s.len() == 0 {
        assert(escaped(s) + tail =~= tail);
        if let Some((text, rest)) = read_quoted(tail) {
            assert(s + text =~= text);
        }
    } else {
        let front = s.drop_last();
        let c = s.last();
        let middle = if c == '\\' || c == '"' {
            seq!['\\', c] + tail
        } else {
            seq![c] + tail
        };
        assert(escaped(s) + tail =~= escaped(front) + middle);
        lemma_read_escaped(front, middle);
        if c == '\\' || c == '"' {
            assert(middle.skip(2) =~= tail);
        } else {
            assert(middle.skip(1) =~= tail);
        }
        if let Some((text, rest)) = read_quoted(tail) {
            assert(front + (seq![c] + text) =~= s + text);
        }
    }
}

/// What stands behind a quoted text is shorter than what was read.
pub proof fn lemma_read_quoted_shrinks(s: Seq<char>)
    ensures
        read_quoted(s) matches Some((text, rest)) ==> rest.len() < s.len(),
    decreases s.len(),
{
    if s.len() > 0 && s[0] != '"' {
        if s[0] == '\\' {
            if s.len() > 1 {
                lemma_read_quoted_shrinks(s.skip(2));
            }
        } else {
            lemma_read_quoted_shrinks(s.skip(1));
        }
    }
}

/// Texts in quotation marks with commas between them, and what stands behind the last of them.
pub open spec fn read_quoted_list(s: Seq<char>) -> Option<(Seq<Seq<char>>, Seq<char>)>
    decreases s.len(),
{
    if s.len() == 0 || s[0] != '"' {
        None
    } else {
        match read_quoted(s.skip(1)) {
            Some((text, rest)) => {
                proof {
                    lemma_read_quoted_shrinks(s.skip(1));
                }
                if rest.len() > 0 && rest[0] == ',' {
                    match read_quoted_list(rest.skip(1)) {
                        Some((others, behind)) => Some((seq![text] + others, behind)),
                        None => None,
                    }
                } else {
                    Some((seq![text], rest))
                }
            },
            None => None,
        }
    }
}

/// A list of quoted texts begins with the first of them.
proof fn lemma_quoted_list_front(v: Seq<Seq<char>>)
    requires
        v.len() > 1,
    ensures
        quoted_list(v) == quoted(v[0]) + seq![','] + quoted_list(v.skip(1)),
    decreases v.len(),
{
    reveal_with_fuel(quoted_list, 2);
    let front = v.drop_last();
    assert(v.skip(1).last() == v.last());
    assert(v.skip(1).drop_last() =~= front.skip(1));
    if v.len() > 2 {
        lemma_quoted_list_front(front);
    }
    assert(quoted_list(v) =~= quoted(v[0]) + seq![','] + quoted_list(v.skip(1)));
}

/// A list of quoted texts can be read back, whatever the texts hold, if what follows it does not
/// go on like a list.
pub proof fn law_quoted_list_is_reversible(v: Seq<Seq<char>>, rest: Seq<char>)
    requires
        v.len() > 0,
        rest.len() == 0 || rest[0] != ',',
    ensures
        read_quoted_list(quoted_list(v) + rest) == Some((v, rest)),
    decreases v.len(),
{
    if v.len() == 1 {
        law_quoting_is_reversible(v[0], rest);
        assert(v =~= seq![v[0]]);
    } else {
        lemma_quoted_list_front(v);
        let others = quoted_list(v.skip(1)) + rest;
        let behind = seq![','] + others;
        assert(quoted_list(v) + rest =~= quoted(v[0]) + behind);
        law_quoting_is_reversible(v[0], behind);
        assert(behind.skip(1) =~= others);
        law_quoted_list_is_reversible(v.skip(1), rest);
        assert(seq![v[0]] + v.skip(1) =~= v);
    }
}

/// A text whose lines are complete keeps them when a line is added, and the added line is the
/// last one.
pub proof fn law_added_line_is_last(s: Seq<char>, line: Seq<char>)
    requires
        split_lines(s).1.len() == 0,
        !line.contains('\n'),
    ensures
        split_lines(s + line.push('\n')).1.len() == 0,
        lines_of(s + line.push('\n')) == lines_of(s).push(strip_return(line)),
{
    lemma_split_without_feed(s, line);
    let whole = s + line.push('\n');
    assert(whole.drop_last() =~= s + line);
    assert(split_lines(s).1 + line =~= line);
}

/// Characters other than a line feed are added to what stands behind the last line feed.
proof fn lemma_split_without_feed(s: Seq<char>, line: Seq<char>)
    requires
        !line.contains('\n'),
    ensures
        split_lines(s + line) == (split_lines(s).0, split_lines(s).1 + line),
    decreases line.len(),
{
    if line.len() == 0 {
        assert(s + line =~= s);
        assert(split_lines(s).1 + line =~= split_lines(s).1);
    } else {
        let front = line.drop_last();
        assert forall|i: int| 0 <= i < front.len() implies front[i] != '\n' by {
            assert(front[i] == line[i]);
        }
        assert(line.last() == line[line.len() - 1]);
        lemma_split_without_feed(s, front);
        assert((s + line).drop_last() =~= s + front);
        assert(split_lines(s).1 + line =~= (split_lines(s).1 + front).push(line.last()));
    }
}

/// Escaping goes character by character, and a character stays as it is unless it is a backslash or
/// a quotation mark, which gets one backslash before it.
pub proof fn law_escaping_by_character(a: Seq<char>, b: Seq<char>, c: char)
    ensures
        escaped(a + b) == escaped(a) + escaped(b),
        c != '\\' && c != '"' ==> escaped(seq![c]) == seq![c],
        c == '\\' || c == '"' ==> escaped(seq![c]) == seq!['\\', c],
    decreases b.len(),
{
    assert(seq![c].drop_last() =~= Seq::empty());
    assert(escaped(Seq::empty()) =~= Seq::<char>::empty());
    assert(Seq::<char>::empty().push(c) =~= seq![c]);
    assert(Seq::<char>::empty().push('\\').push(c) =~= seq!['\\', c]);
    if b.len() == 0 {
        assert(a + b =~= a);
        assert(escaped(a) + escaped(b) =~= escaped(a));
    } else {
        law_escaping_by_character(a, b.drop_last(), c);
        assert((a + b).drop_last() =~= a + b.drop_last());
        assert(escaped(a + b) =~= escaped(a) + escaped(b));
    }
}

/// A text without backslashes and quotation marks is quoted as itself, between two marks.
pub proof fn law_plain_text_stays(s: Seq<char>)
    requires
        !s.contains('\\'),
        !s.contains('"'),
    ensures
        quoted(s) == seq!['"'] + s + seq!['"'],
    decreases s.len(),
{
    if s.len() == 0 {
        assert(escaped(s) =~= s);
    } else {
        let front = s.drop_last();
        assert(s[s.len() - 1] == s.last());
        assert forall|i: int| 0 <= i < front.len() implies front[i] != '\\' && front[i] != '"' by {
            assert(front[i] == s[i]);
        }
        law_plain_text_stays(front);
        lemma_quoted_inside(front);
        assert(escaped(s) =~= s);
    }
}

/// What is between the marks of a quoted text is the escaped text.
proof fn lemma_quoted_inside(s: Seq<char>)
    ensures
        quoted(s) == seq!['"'] + s + seq!['"'] ==> escaped(s) == s,
{
    let q = quoted(s);
    assert(q.subrange(1, q.len() - 1) =~= escaped(s));
    if q == seq!['"'] + s + seq!['"'] {
        assert(q.subrange(1, q.len() - 1) =~= s);
    }
}

/// The number that decimal digits stand for.
pub open spec fn number_of(digits: Seq<char>) -> int
    decreases digits.len(),
{
    if digits.len() == 0 {
        0
    } else {
        10 * number_of(digits.drop_last()) + (digits.last() as int - '0' as int)
    }
}

/// A number in decimal is made of digits, stands for the number, and has no leading zero.
pub proof fn law_decimal(n: nat)
    ensures
        decimal(n).len() > 0,
        forall|i: int| 0 <= i < decimal(n).len() ==> '0' <= #[trigger] decimal(n)[i] <= '9',
        number_of(decimal(n)) == n,
        decimal(n)[0] == '0' ==> decimal(n).len() == 1,
    decreases n,
{
    reveal_with_fuel(number_of, 2);
    if n >= 10 {
        law_decimal(n / 10);
        let front = decimal(n / 10);
        assert(decimal(n).drop_last() =~= front);
        assert(decimal(n)[0] == front[0]);
        assert forall|i: int| 0 <= i < decimal(n).len() implies '0' <= #[trigger] decimal(n)[i]
            <= '9' by {
            if i < front.len() {
                assert(decimal(n)[i] == front[i]);
            }
        }
        if front[0] == '0' {
            assert(front.drop_last() =~= Seq::empty());
            assert(number_of(front) == 0);
        }
    } else {
        assert(decimal(n).drop_last() =~= Seq::empty());
    }
}

/// Texts that are the same but for a number in them differ.
pub proof fn law_decimals_differ(before: Seq<char>, n: nat, m: nat, behind: Seq<char>)
    requires
        n != m,
    ensures
        before + decimal(n) + behind != before + decimal(m) + behind,
{
    law_decimal(n);
    law_decimal(m);
    let (x, y) = (before + decimal(n) + behind, before + decimal(m) + behind);
    if x == y {
        let b = before.len() as int;
        assert(x.subrange(b, x.len() - behind.len()) =~= decimal(n));
        assert(y.subrange(b, y.len() - behind.len()) =~= decimal(m));
    }
}

/// No line of a text holds a line feed, and a text without carriage returns whose lines are
/// complete is its lines with a line feed behind each.
pub proof fn law_lines(s: Seq<char>)
    ensures
        forall|i: int| 0 <= i < lines_of(s).len() ==> !(#[trigger] lines_of(s)[i]).contains('\n'),
        !s.contains('\r') ==> fed(split_lines(s).0) + split_lines(s).1 == s,
        !s.contains('\r') && (s.len() == 0 || s.last() == '\n') ==> fed(lines_of(s)) == s,
{
    lemma_split_lines(s);
}

/// Lines with a line feed behind each.
pub open spec fn fed(lines: Seq<Seq<char>>) -> Seq<char>
    decreases lines.len(),
{
    if lines.len() == 0 {
        Seq::empty()
    } else {
        fed(lines.drop_last()) + lines.last().push('\n')
    }
}

/// What is split off holds no line feed, and is all of the text but its line feeds.
proof fn lemma_split_lines(s: Seq<char>)
    ensures
        forall|i: int|
            0 <= i < split_lines(s).0.len() ==> !(#[trigger] split_lines(s).0[i]).contains('\n'),
        !split_lines(s).1.contains('\n'),
        !s.contains('\r') ==> !split_lines(s).1.contains('\r'),
        !s.contains('\r') ==> fed(split_lines(s).0) + split_lines(s).1 == s,
        s.len() > 0 && s.last() == '\n' ==> split_lines(s).1.len() == 0,
    decreases s.len(),
{
    if s.len() == 0 {
        assert(fed(split_lines(s).0) + split_lines(s).1 =~= s);
    } else {
        let front = s.drop_last();
        lemma_split_lines(front);
        let (done, rest) = split_lines(front);
        let c = s.last();
        if !s.contains('\r') {
            assert(s[s.len() - 1] == c);
            assert forall|i: int| 0 <= i < front.len() implies front[i] != '\r' by {
                assert(front[i] == s[i]);
            }
            assert(!front.contains('\r'));
        }
        if c == '\n' {
            let line = strip_return(rest);
            assert forall|i: int| 0 <= i < line.len() implies line[i] != '\n' by {
                assert(line[i] == rest[i]);
            }
            if !s.contains('\r') {
                if rest.len() > 0 {
                    assert(rest[rest.len() - 1] == rest.last());
                }
                assert(line == rest);
                let all = split_lines(s).0;
                assert(all.drop_last() =~= done);
                assert(fed(done) + rest == front);
                assert(s =~= front.push('\n'));
                assert(fed(all) == fed(done) + rest.push('\n'));
                assert(fed(done) + rest.push('\n') =~= (fed(done) + rest).push('\n'));
                assert(fed(all) + split_lines(s).1 =~= s);
            }
        } else {
            let next = rest.push(c);
            assert forall|i: int| 0 <= i < next.len() implies next[i] != '\n' by {
                if i < rest.len() {
                    assert(next[i] == rest[i]);
                }
            }
            if !s.contains('\r') {
                assert forall|i: int| 0 <= i < next.len() implies next[i] != '\r' by {
                    if i < rest.len() {
                        assert(next[i] == rest[i]);
                    }
                }
                assert(fed(done) + rest == front);
                assert(s =~= front.push(c));
                assert(fed(done) + next =~= (fed(done) + rest).push(c));
            }
        }
    }
}

/// A text occurs in every text that is written around it.
pub proof fn law_occurs(needle: Seq<char>, before: Seq<char>, behind: Seq<char>)
    ensures
        occurs(needle, before + needle + behind),
{
    let hay = before + needle + behind;
    let k = before.len() as int;
    assert(hay.subrange(k, k + needle.len()) =~= needle);
}

/// Where a text occurs in another, there is what stands before and behind it.
pub proof fn law_occurs_somewhere(needle: Seq<char>, hay: Seq<char>) -> (r: (Seq<char>, Seq<char>))
    requires
        occurs(needle, hay),
    ensures
        hay == r.0 + needle + r.1,
{
    let k = choose|k: int|
        0 <= k <= hay.len() - needle.len() && #[trigger] hay.subrange(k, k + needle.len())
            == needle;
    let (before, behind) = (hay.take(k), hay.skip(k + needle.len()));
    assert(hay =~= before + hay.subrange(k, k + needle.len()) + behind);
    (before, behind)
}

/// A line that is added behind complete lines is the last one, as it was written: with a line feed
/// behind it, with a carriage return and a line feed, or with nothing. Exactly one carriage return
/// goes with a line feed, and none where there is no line feed.
pub proof fn law_line_ends(s: Seq<char>, line: Seq<char>)
    requires
        s.len() == 0 || s.last() == '\n',
        !line.contains('\n'),
    ensures
        line.len() == 0 || line.last() != '\r' ==> lines_of(s + line + seq!['\n']) == lines_of(
            s,
        ).push(line),
        lines_of(s + line + seq!['\r', '\n']) == lines_of(s).push(line),
        line.len() > 0 ==> lines_of(s + line) == lines_of(s).push(line),
{
    lemma_split_lines(s);
    lemma_split_without_feed(s, line);
    assert(split_lines(s).1 + line =~= line);
    law_added_line_is_last(s, line);
    assert(s + line.push('\n') =~= s + line + seq!['\n']);
    let returned = line.push('\r');
    assert forall|i: int| 0 <= i < returned.len() implies returned[i] != '\n' by {
        if i < line.len() {
            assert(returned[i] == line[i]);
        }
    }
    law_added_line_is_last(s, returned);
    assert(s + returned.push('\n') =~= s + line + seq!['\r', '\n']);
    assert(returned.drop_last() =~= line);
}

} // verus!
