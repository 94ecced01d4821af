//! Character-level text utilities: whitespace trimming, line splitting and
//! substring search, with exact specifications over `Seq<char>`.

use vstd::prelude::*;

verus! {

// ---------------------------------------------------------------------------
// Whitespace
// ---------------------------------------------------------------------------

/// The characters that Rust's `char::is_whitespace` recognizes
/// (the Unicode `White_Space` property).
pub open spec fn is_space_char(c: char) -> bool {
    c == ' ' || c == '\t' || c == '\n' || c == '\r' || c as u32 == 0x0b || c as u32 == 0x0c
        || c as u32 == 0x85 || c as u32 == 0xa0 || c as u32 == 0x1680
        || (0x2000 <= c as u32 && c as u32 <= 0x200a) || c as u32 == 0x2028
        || c as u32 == 0x2029 || c as u32 == 0x202f || c as u32 == 0x205f || c as u32 == 0x3000
}

/// Whitespace test on a single character.
pub fn is_space(c: char) -> (r: bool)
    ensures
        r == is_space_char(c),
{
    let u = c as u32;
    u == 0x20 || u == 0x09 || u == 0x0a || u == 0x0d || u == 0x0b || u == 0x0c || u == 0x85
        || u == 0xa0 || u == 0x1680 || (0x2000 <= u && u <= 0x200a) || u == 0x2028 || u == 0x2029
        || u == 0x202f || u == 0x205f || u == 0x3000
}

// ---------------------------------------------------------------------------
// From &str to a vector of characters
// ---------------------------------------------------------------------------

/// The characters of a string slice, as a vector.
pub fn chars_of(s: &str) -> (v: Vec<char>)
    ensures
        v@ == s@,
{
    let n = s.unicode_len();
    let mut v: Vec<char> = Vec::new();
    let mut i: usize = 0;
    while i < n
        invariant
            i <= n,
            n == s@.len(),
            v@ == s@.take(i as int),
        decreases n - i,
    {
        v.push(s.get_char(i));
        i = i + 1;
        proof {
            assert(v@ =~= s@.take(i as int));
        }
    }
    proof {
        assert(v@ =~= s@);
    }
    v
}

// ---------------------------------------------------------------------------
// Trimming
// ---------------------------------------------------------------------------

/// Length of the remaining sequence after dropping trailing whitespace.
pub open spec fn trailing_trim_len(s: Seq<char>) -> int
    decreases s.len(),
{
    if s.len() > 0 && is_space_char(s.last()) {
        trailing_trim_len(s.drop_last())
    } else {
        s.len() as int
    }
}

/// Number of leading whitespace characters.
pub open spec fn leading_spaces(s: Seq<char>) -> int
    decreases s.len(),
{
    if s.len() > 0 && is_space_char(s[0]) {
        1 + leading_spaces(s.skip(1))
    } else {
        0
    }
}

/// The sequence with leading and trailing whitespace removed,
/// as `str::trim` does.
pub open spec fn trim(s: Seq<char>) -> Seq<char> {
    let t = s.take(trailing_trim_len(s));
    t.skip(leading_spaces(t))
}

/// `trailing_trim_len` is the unique cut `b` such that everything at or after
/// `b` is whitespace and the character just before `b`, if any, is not.
pub proof fn lemma_trailing_trim_char(s: Seq<char>, b: int)
    requires
        0 <= b <= s.len(),
        forall|k: int| b <= k < s.len() ==> is_space_char(s[k]),
        b > 0 ==> !is_space_char(s[b - 1]),
    ensures
        trailing_trim_len(s) == b,
    decreases s.len(),
{
    if b == s.len() {
        if s.len() > 0 {
            assert(!is_space_char(s.last()));
        }
    } else {
        assert(is_space_char(s.last()));
        lemma_trailing_trim_char(s.drop_last(), b);
    }
}

/// `leading_spaces` is the unique cut `a` such that everything before `a` is
/// whitespace and the character at `a`, if any, is not.
pub proof fn lemma_leading_spaces_char(s: Seq<char>, a: int)
    requires
        0 <= a <= s.len(),
        forall|k: int| 0 <= k < a ==> is_space_char(s[k]),
        a < s.len() ==> !is_space_char(s[a]),
    ensures
        leading_spaces(s) == a,
    decreases a,
{
    if a == 0 {
        if s.len() > 0 {
            assert(!is_space_char(s[0]));
        }
    } else {
        assert(is_space_char(s[0]));
        lemma_leading_spaces_char(s.skip(1), a - 1);
        assert(forall|k: int| 0 <= k < a - 1 ==> s.skip(1)[k] == s[k + 1]);
    }
}

/// Copy of `v` with leading and trailing whitespace removed.
pub fn trim_chars(v: &Vec<char>) -> (r: Vec<char>)
    ensures
        r@ == trim(v@),
{
    let mut b: usize = v.len();
    while b > 0 && is_space(v[b - 1])
        invariant
            b <= v.len(),
            forall|k: int| b <= k < v@.len() ==> is_space_char(v@[k]),
        decreases b,
    {
        b = b - 1;
    }
    let mut a: usize = 0;
    while a < b && is_space(v[a])
        invariant
            a <= b <= v.len(),
            forall|k: int| 0 <= k < a ==> is_space_char(v@[k]),
        decreases b - a,
    {
        a = a + 1;
    }
    proof {
        lemma_trailing_trim_char(v@, b as int);
        let t = v@.take(b as int);
        lemma_leading_spaces_char(t, a as int);
    }
    let mut r: Vec<char> = Vec::new();
    let mut i: usize = a;
    while i < b
        invariant
            a <= i <= b <= v.len(),
            r@ == v@.subrange(a as int, i as int),
        decreases b - i,
    {
        r.push(v[i]);
        i = i + 1;
        proof {
            assert(r@ =~= v@.subrange(a as int, i as int));
        }
    }
    proof {
        assert(r@ =~= trim(v@));
    }
    r
}

// ---------------------------------------------------------------------------
// Splitting at a separator
// ---------------------------------------------------------------------------

/// The fields of `s` between occurrences of `sep`, in order, as `str::split`
/// yields them: an empty input gives one empty field, and every separator
/// starts a new field.
pub open spec fn split_at_seps(s: Seq<char>, sep: char) -> Seq<Seq<char>>
    decreases s.len(),
{
    if s.len() == 0 {
        seq![Seq::<char>::empty()]
    } else if s[0] == sep {
        seq![Seq::<char>::empty()].add(split_at_seps(s.skip(1), sep))
    } else {
        let rest = split_at_seps(s.skip(1), sep);
        seq![seq![s[0]].add(rest[0])].add(rest.skip(1))
    }
}

/// Splitting always yields at least one field.
pub proof fn lemma_split_nonempty(s: Seq<char>, sep: char)
    ensures
        split_at_seps(s, sep).len() >= 1,
    decreases s.len(),
{
    if s.len() > 0 {
        lemma_split_nonempty(s.skip(1), sep);
    }
}

/// The fields of `v` between occurrences of `sep`.
pub fn split_chars(v: &Vec<char>, sep: char) -> (r: Vec<Vec<char>>)
    ensures
        r.deep_view() == split_at_seps(v@, sep),
        r.len() >= 1,
{
    let ghost s = v@;
    let mut out: Vec<Vec<char>> = Vec::new();
    let mut cur: Vec<char> = Vec::new();
    let mut i: usize = 0;
    proof {
        lemma_split_nonempty(s, sep);
        assert(s.skip(0) =~= s);
        assert(split_at_seps(s, sep) =~~= seq![Seq::<char>::empty().add(
            split_at_seps(s, sep)[0],
        )].add(split_at_seps(s, sep).skip(1)));
    }
    while i < v.len()
        invariant
            i <= v.len(),
            s == v@,
            split_at_seps(s, sep) =~~= out.deep_view().add(
                seq![cur@.add(split_at_seps(s.skip(i as int), sep)[0])].add(
                    split_at_seps(s.skip(i as int), sep).skip(1),
                ),
            ),
        decreases v.len() - i,
    {
        proof {
            lemma_split_nonempty(s.skip(i as int), sep);
            lemma_split_nonempty(s.skip(i as int + 1), sep);
            assert(s.skip(i as int).skip(1) =~= s.skip(i as int + 1));
        }
        if v[i] == sep {
            out.push(cur);
            cur = Vec::new();
        } else {
            cur.push(v[i]);
        }
        i = i + 1;
    }
    proof {
        assert(s.skip(i as int) =~= Seq::<char>::empty());
    }
    out.push(cur);
    proof {
        lemma_split_nonempty(s, sep);
        assert(out.deep_view() =~~= split_at_seps(s, sep));
    }
    out
}

// ---------------------------------------------------------------------------
// Splitting into lines, as `str::lines` does
// ---------------------------------------------------------------------------

/// A line with one trailing carriage return removed.
pub open spec fn strip_cr(l: Seq<char>) -> Seq<char> {
    if l.len() > 0 && l.last() == '\r' {
        l.drop_last()
    } else {
        l
    }
}

/// The lines of `s`, as `str::lines` yields them: lines end at `'\n'` or
/// `"\r\n"`, the final line ending is optional, and a carriage return not
/// followed by a line feed is kept.
pub open spec fn split_lines(s: Seq<char>) -> Seq<Seq<char>> {
    if s.len() == 0 {
        Seq::<Seq<char>>::empty()
    } else {
        let parts = split_at_seps(s, '\n');
        if s.last() == '\n' {
            parts.drop_last().map_values(|l: Seq<char>| strip_cr(l))
        } else {
            parts.drop_last().map_values(|l: Seq<char>| strip_cr(l)).push(parts.last())
        }
    }
}

/// A vector of characters views deeply as its plain view.
pub proof fn lemma_chars_deep_view(v: Vec<char>)
    ensures
        v.deep_view() == v@,
{
    assert(v.deep_view() =~= v@);
}

/// The lines of `v`.
pub fn lines_of(v: &Vec<char>) -> (r: Vec<Vec<char>>)
    ensures
        r.deep_view() == split_lines(v@),
{
    if v.len() == 0 {
        let r: Vec<Vec<char>> = Vec::new();
        proof {
            assert(r.deep_view() =~~= split_lines(v@));
        }
        return r;
    }
    let ghost all = split_at_seps(v@, '\n');
    let mut parts = split_chars(v, '\n');
    let ghost orig = parts@;
    proof {
        assert forall|k: int| 0 <= k < orig.len() implies #[trigger] orig[k]@ == all[k] by {
            lemma_chars_deep_view(orig[k]);
        }
    }
    let ends_nl = v[v.len() - 1] == '\n';
    let keep_last = if ends_nl {
        let _ = parts.pop();
        None
    } else {
        parts.pop()
    };
    proof {
        assert(parts@ =~= orig.drop_last());
        assert forall|k: int| 0 <= k < parts@.len() implies #[trigger] parts@[k]@
            == all.drop_last()[k] by {
            assert(parts@[k] == orig[k]);
        }
    }
    let n = parts.len();
    let mut i: usize = 0;
    while i < n
        invariant
            i <= n,
            n == parts.len(),
            n == all.drop_last().len(),
            forall|k: int| i <= k < n ==> #[trigger] parts@[k]@ == all.drop_last()[k],
            forall|k: int| 0 <= k < i ==> #[trigger] parts@[k]@ == strip_cr(all.drop_last()[k]),
        decreases n - i,
    {
        let ends_cr = parts[i].len() > 0 && parts[i][parts[i].len() - 1] == '\r';
        let ghost before = parts@;
        if ends_cr {
            let mut line = parts.remove(i);
            let _ = line.pop();
            proof {
                assert(line@ =~= strip_cr(all.drop_last()[i as int]));
            }
            parts.insert(i, line);
            proof {
                assert(parts@ =~= before.update(i as int, parts@[i as int]));
            }
        } else {
            proof {
                assert(strip_cr(all.drop_last()[i as int]) =~= all.drop_last()[i as int]);
            }
        }
        i = i + 1;
    }
    match keep_last {
        Some(last) => {
            proof {
                assert(last == orig.last());
                assert(last@ == all.last());
            }
            parts.push(last);
        },
        None => {},
    }
    proof {
        assert forall|k: int| 0 <= k < parts@.len() implies #[trigger] parts.deep_view()[k]
            == parts@[k]@ by {
            lemma_chars_deep_view(parts@[k]);
        }
        assert(parts.deep_view() =~~= split_lines(v@));
    }
    parts
}

/// Dropping trailing whitespace never lengthens a sequence.
pub proof fn lemma_trailing_trim_le(s: Seq<char>)
    ensures
        0 <= trailing_trim_len(s) <= s.len(),
    decreases s.len(),
{
    if s.len() > 0 && is_space_char(s.last()) {
        lemma_trailing_trim_le(s.drop_last());
    }
}

/// A trailing carriage return is whitespace, so stripping it does not change
/// the trimmed sequence.
pub proof fn lemma_trim_strip_cr(l: Seq<char>)
    ensures
        trim(strip_cr(l)) == trim(l),
{
    if l.len() > 0 && l.last() == '\r' {
        let d = l.drop_last();
        assert(trailing_trim_len(l) == trailing_trim_len(d));
        lemma_trailing_trim_le(d);
        assert(l.take(trailing_trim_len(l)) =~= d.take(trailing_trim_len(d)));
    }
}

/// Splitting a text that starts with a separator-free field and a separator
/// yields that field and then the split of the rest.
pub proof fn lemma_split_at_seps_prefix(line: Seq<char>, rest: Seq<char>, sep: char)
    requires
        !line.contains(sep),
    ensures
        split_at_seps(line.add(seq![sep]).add(rest), sep) == seq![line].add(
            split_at_seps(rest, sep),
        ),
    decreases line.len(),
{
    let s = line.add(seq![sep]).add(rest);
    if line.len() == 0 {
        assert(s[0] == sep);
        assert(s.skip(1) =~= rest);
        assert(seq![Seq::<char>::empty()].add(split_at_seps(rest, sep)) =~~= seq![line].add(
            split_at_seps(rest, sep),
        ));
    } else {
        assert(line[0] != sep);
        assert(s[0] == line[0]);
        assert(s.skip(1) =~= line.skip(1).add(seq![sep]).add(rest));
        assert(!line.skip(1).contains(sep)) by {
            if line.skip(1).contains(sep) {
                let k = choose|k: int| 0 <= k < line.skip(1).len() && line.skip(1)[k] == sep;
                assert(line[k + 1] == sep);
            }
        }
        lemma_split_at_seps_prefix(line.skip(1), rest, sep);
        let r = seq![line.skip(1)].add(split_at_seps(rest, sep));
        assert(r[0] == line.skip(1));
        assert(r.skip(1) =~~= split_at_seps(rest, sep));
        assert(seq![s[0]].add(r[0]) =~= line);
        assert(split_at_seps(s, sep) =~~= seq![line].add(split_at_seps(rest, sep)));
    }
}

/// The lines of a text that starts with one newline-free line and a newline
/// are that line, a carriage return stripped, and then the lines of the rest.
pub proof fn lemma_split_lines_prefix(line: Seq<char>, rest: Seq<char>)
    requires
        !line.contains('\n'),
    ensures
        split_lines(line.add(seq!['\n']).add(rest)) == seq![strip_cr(line)].add(split_lines(rest)),
{
    let s = line.add(seq!['\n']).add(rest);
    lemma_split_at_seps_prefix(line, rest, '\n');
    let parts = split_at_seps(s, '\n');
    let restparts = split_at_seps(rest, '\n');
    lemma_split_nonempty(rest, '\n');
    assert(s.len() > 0);
    if rest.len() == 0 {
        assert(restparts =~~= seq![Seq::<char>::empty()]);
        assert(s.last() == '\n');
        assert(parts.drop_last() =~~= seq![line]);
        assert(split_lines(s) =~~= seq![strip_cr(line)]);
        assert(split_lines(rest) =~~= Seq::<Seq<char>>::empty());
        assert(seq![strip_cr(line)].add(split_lines(rest)) =~~= seq![strip_cr(line)]);
    } else {
        assert(s.last() == rest.last());
        assert(parts.drop_last() =~~= seq![line].add(restparts.drop_last()));
        assert(parts.last() == restparts.last());
        if rest.last() == '\n' {
            assert(split_lines(s) =~~= seq![strip_cr(line)].add(split_lines(rest)));
        } else {
            assert(split_lines(s) =~~= seq![strip_cr(line)].add(split_lines(rest)));
        }
    }
}

// ---------------------------------------------------------------------------
// Substring search
// ---------------------------------------------------------------------------

/// `sub` occurs in `s` at position `i`.
pub open spec fn contains_at(s: Seq<char>, sub: Seq<char>, i: int) -> bool {
    0 <= i && i + sub.len() <= s.len() && s.subrange(i, i + sub.len()) == sub
}

/// `sub` occurs somewhere in `s`, as `str::contains` tests.
pub open spec fn contains_sub(s: Seq<char>, sub: Seq<char>) -> bool {
    exists|i: int| contains_at(s, sub, i)
}

/// Substring search.
pub fn contains_chars(v: &Vec<char>, sub: &Vec<char>) -> (r: bool)
    ensures
        r == contains_sub(v@, sub@),
{
    if sub.len() > v.len() {
        proof {
            assert(forall|i: int| !contains_at(v@, sub@, i));
        }
        return false;
    }
    if sub.len() == 0 {
        proof {
            assert(v@.subrange(0, 0) =~= sub@);
            assert(contains_at(v@, sub@, 0));
        }
        return true;
    }
    let last_start = v.len() - sub.len();
    let mut i: usize = 0;
    while i <= last_start
        invariant
            i <= last_start + 1,
            last_start == v.len() - sub.len(),
            0 < sub.len() <= v.len(),
            forall|k: int| 0 <= k < i ==> !contains_at(v@, sub@, k),
        decreases last_start + 1 - i,
    {
        let mut j: usize = 0;
        let mut matched = true;
        while j < sub.len() && matched
            invariant
                j <= sub.len(),
                i + sub.len() <= v.len(),
                matched ==> forall|k: int| 0 <= k < j ==> v@[i + k] == sub@[k],
                !matched ==> !contains_at(v@, sub@, i as int),
            decreases sub.len() - j + (if matched { 1int } else { 0int }),
        {
            if v[i + j] != sub[j] {
                proof {
                    assert(v@.subrange(i as int, i + sub@.len())[j as int] != sub@[j as int]);
                }
                matched = false;
            } else {
                j = j + 1;
            }
        }
        if matched {
            proof {
                assert(v@.subrange(i as int, i + sub@.len()) =~= sub@);
                assert(contains_at(v@, sub@, i as int));
            }
            return true;
        }
        i = i + 1;
    }
    proof {
        assert forall|k: int| !contains_at(v@, sub@, k) by {
            if 0 <= k && k + sub@.len() <= v@.len() {
                assert(k < i);
            }
        }
    }
    false
}

} // verus!
