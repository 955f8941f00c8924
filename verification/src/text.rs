//! Strings as sequences of characters: the vocabulary in which the rest of
//! the crate says what it does to text, and the operations it runs on it.
use vstd::prelude::*;
use vstd::std_specs::iter::IteratorSpec;
use vstd::string::*;

verus! {

/// The characters of each string.
pub open spec fn views(strings: Seq<String>) -> Seq<Seq<char>> {
    strings.map_values(|s: String| s@)
}

/// The characters of each string slice.
pub open spec fn str_views(strings: Seq<&str>) -> Seq<Seq<char>> {
    strings.map_values(|s: &str| s@)
}

/// The characters of a string that may be absent.
pub open spec fn opt_view(s: Option<String>) -> Option<Seq<char>> {
    match s {
        Some(s) => Some(s@),
        None => None,
    }
}

/// The text that `bytes` encode, if they are valid UTF-8.
pub open spec fn decoded(bytes: Seq<u8>) -> Option<Seq<char>> {
    if vstd::utf8::valid_utf8(bytes) {
        Some(vstd::utf8::decode_utf8(bytes))
    } else {
        None
    }
}

/// The characters of a string slice that may be absent.
pub open spec fn opt_str_view(s: Option<&str>) -> Option<Seq<char>> {
    match s {
        Some(s) => Some(s@),
        None => None,
    }
}

/// Adds one character at the end (`String::push`).
pub assume_specification[ String::push ](s: &mut String, c: char)
    ensures
        final(s)@ == old(s)@.push(c),
;

/// The text that `bytes` encode (`std::str::from_utf8`): there is one exactly
/// if they are valid UTF-8, and it holds the characters that they decode to.
#[verifier::external_body]
pub(crate) fn from_utf8(bytes: &[u8]) -> (text: Option<&str>)
    ensures
        opt_str_view(text) == decoded(bytes@),
{
    std::str::from_utf8(bytes).ok()
}

/// The characters of `s`.
pub fn chars_of(s: &str) -> (chars: Vec<char>)
    ensures
        chars@ == s@,
{
    let mut chars: Vec<char> = Vec::new();
    for c in it: s.chars()
        invariant
            it.seq() == s@,
            chars@ == s@.take(it.index()),
    {
        chars.push(c);
    }
    chars
}

/// The string with the characters `chars`.
pub fn string_of(chars: &[char]) -> (s: String)
    ensures
        s@ == chars@,
{
    let mut s = String::new();
    for i in 0..chars.len()
        invariant
            s@ == chars@.take(i as int),
    {
        s.push(chars[i]);
    }
    s
}

/// Whether the two strings hold the same characters.
pub fn same(a: &str, b: &str) -> (r: bool)
    ensures
        r == (a@ == b@),
{
    let mut left = a.chars();
    let mut right = b.chars();
    let ghost mut seen: int = 0;
    loop
        invariant
            0 <= seen <= a@.len(),
            seen <= b@.len(),
            a@.take(seen) == b@.take(seen),
            left.remaining() == a@.skip(seen),
            right.remaining() == b@.skip(seen),
        decreases a@.len() - seen,
    {
        match (left.next(), right.next()) {
            (Some(c), Some(d)) => {
                if c != d {
                    assert(a@[seen] != b@[seen]);
                    return false;
                }
                proof {
                    assert(a@.take(seen + 1) =~= b@.take(seen + 1));
                    seen = seen + 1;
                }
            },
            (None, None) => {
                assert(a@ =~= a@.take(seen));
                assert(b@ =~= b@.take(seen));
                return true;
            },
            _ => {
                return false;
            },
        }
    }
}

/// Whether `name` is among `names`.
pub fn is_listed(names: &[String], name: &str) -> (r: bool)
    ensures
        r == views(names@).contains(name@),
{
    for i in 0..names.len()
        invariant
            forall|k: int| 0 <= k < i ==> (#[trigger] names@[k])@ != name@,
    {
        if same(&names[i], name) {
            assert(views(names@)[i as int] == name@);
            return true;
        }
    }
    proof {
        if views(names@).contains(name@) {
            let k = views(names@).index_of(name@);
            assert(names@[k]@ == name@);
        }
    }
    false
}

/// Whether `s` begins with `prefix`.
pub fn starts_with(s: &str, prefix: &str) -> (r: bool)
    ensures
        r == prefix@.is_prefix_of(s@),
{
    let mut rest = s.chars();
    let mut expected = prefix.chars();
    let ghost mut seen: int = 0;
    loop
        invariant
            0 <= seen <= s@.len(),
            seen <= prefix@.len(),
            s@.take(seen) == prefix@.take(seen),
            rest.remaining() == s@.skip(seen),
            expected.remaining() == prefix@.skip(seen),
        decreases prefix@.len() - seen,
    {
        match expected.next() {
            None => {
                assert(prefix@ =~= prefix@.take(seen));
                return true;
            },
            Some(d) => {
                match rest.next() {
                    None => {
                        return false;
                    },
                    Some(c) => {
                        if c != d {
                            assert(s@[seen] != prefix@[seen]);
                            proof {
                                if prefix@.len() <= s@.len() {
                                    assert(s@.subrange(0, prefix@.len() as int)[seen] == s@[seen]);
                                }
                            }
                            return false;
                        }
                        proof {
                            assert(s@.take(seen + 1) =~= prefix@.take(seen + 1));
                            seen = seen + 1;
                        }
                    },
                }
            },
        }
    }
}

/// What remains of `s` after its first `count` characters.
pub fn skip(s: &str, count: usize) -> (rest: String)
    requires
        count <= s@.len(),
    ensures
        rest@ == s@.skip(count as int),
{
    let mut rest = String::new();
    let mut passed: usize = 0;
    for c in it: s.chars()
        invariant
            it.seq() == s@,
            count <= s@.len(),
            passed == if it.index() < count {
                it.index()
            } else {
                count as int
            },
            rest@ == if it.index() < count {
                Seq::<char>::empty()
            } else {
                s@.subrange(count as int, it.index())
            },
    {
        if passed < count {
            passed = passed + 1;
            assert(s@.subrange(count as int, count as int) =~= Seq::<char>::empty());
        } else {
            rest.push(c);
        }
    }
    rest
}

/// What follows `prefix` in `s`, if `s` begins with it.
pub fn strip_prefix(s: &str, prefix: &str) -> (rest: Option<String>)
    ensures
        opt_view(rest) == without_prefix(s@, prefix@),
{
    if starts_with(s, prefix) {
        let count: usize = prefix.unicode_len();
        Some(skip(s, count))
    } else {
        None
    }
}

/// What follows `prefix` in `s`, if `s` begins with it.
pub open spec fn without_prefix(s: Seq<char>, prefix: Seq<char>) -> Option<Seq<char>> {
    if prefix.is_prefix_of(s) {
        Some(s.skip(prefix.len() as int))
    } else {
        None
    }
}

/// What precedes `suffix` in `s`, if `s` ends with it.
pub open spec fn without_suffix(s: Seq<char>, suffix: Seq<char>) -> Option<Seq<char>> {
    if suffix.is_suffix_of(s) {
        Some(s.take(s.len() - suffix.len()))
    } else {
        None
    }
}

/// What precedes `suffix` in `s`, if `s` ends with it.
pub fn strip_suffix(s: &str, suffix: &str) -> (rest: Option<String>)
    ensures
        opt_view(rest) == without_suffix(s@, suffix@),
{
    if ends_with(s, suffix) {
        let chars = chars_of(s);
        let cut: usize = suffix.unicode_len();
        let rest = string_of(&chars[0..chars.len() - cut]);
        assert(rest@ =~= s@.take(s@.len() - suffix@.len()));
        Some(rest)
    } else {
        None
    }
}

/// Whether the characters `needle` stand in `chars` from position `at` on.
pub open spec fn occurs_at(chars: Seq<char>, needle: Seq<char>, at: int) -> bool {
    0 <= at && at + needle.len() <= chars.len() && chars.subrange(at, at + needle.len()) == needle
}

/// Whether `needle` occurs anywhere in `s`.
pub open spec fn has_infix(s: Seq<char>, needle: Seq<char>) -> bool {
    exists|at: int| occurs_at(s, needle, at)
}

fn stands_at(chars: &[char], needle: &[char], at: usize) -> (r: bool)
    requires
        at + needle@.len() <= chars@.len(),
    ensures
        r == occurs_at(chars@, needle@, at as int),
{
    let end: usize = chars.len();
    for i in 0..needle.len()
        invariant
            end == chars@.len(),
            at + needle@.len() <= end,
            forall|k: int| 0 <= k < i ==> chars@[at + k] == needle@[k],
    {
        if chars[at + i] != needle[i] {
            assert(chars@.subrange(at as int, at + needle@.len())[i as int] != needle@[i as int]);
            return false;
        }
    }
    assert(chars@.subrange(at as int, at + needle@.len()) =~= needle@);
    true
}

/// Whether `s` ends with `suffix`.
pub fn ends_with(s: &str, suffix: &str) -> (r: bool)
    ensures
        r == suffix@.is_suffix_of(s@),
{
    let chars = chars_of(s);
    let wanted = chars_of(suffix);
    if wanted.len() <= chars.len() {
        let at: usize = chars.len() - wanted.len();
        stands_at(&chars, &wanted, at)
    } else {
        false
    }
}

/// Whether `needle` occurs anywhere in `s`.
pub fn contains(s: &str, needle: &str) -> (r: bool)
    ensures
        r == has_infix(s@, needle@),
{
    let chars = chars_of(s);
    let wanted = chars_of(needle);
    if wanted.len() > chars.len() {
        return false;
    }
    let last: usize = chars.len() - wanted.len();
    let mut at: usize = 0;
    while at <= last
        invariant
            at <= last + 1,
            chars@ == s@,
            wanted@ == needle@,
            last + wanted@.len() == chars@.len(),
            forall|k: int| 0 <= k < at ==> !occurs_at(s@, needle@, k),
        decreases last + 1 - at,
    {
        if stands_at(&chars, &wanted, at) {
            return true;
        }
        if at == last {
            return false;
        }
        at = at + 1;
    }
    false
}

/// The pieces of `s` between the occurrences of `sep`, in order. There is
/// always one more piece than there are separators.
pub open spec fn split(s: Seq<char>, sep: char) -> Seq<Seq<char>>
    decreases s.len(),
{
    if s.len() == 0 {
        seq![Seq::empty()]
    } else {
        let before = split(s.drop_last(), sep);
        if s.last() == sep {
            before.push(Seq::empty())
        } else {
            before.drop_last().push(before.last().push(s.last()))
        }
    }
}

/// Cuts `s` at every `sep`.
pub fn split_on(s: &str, sep: char) -> (pieces: Vec<String>)
    ensures
        views(pieces@) == split(s@, sep),
{
    let mut pieces: Vec<String> = Vec::new();
    let mut current = String::new();
    for c in it: s.chars()
        invariant
            it.seq() == s@,
            views(pieces@).push(current@) == split(s@.take(it.index()), sep),
    {
        let ghost done = views(pieces@);
        assert(s@.take(it.index() + 1).drop_last() =~= s@.take(it.index()));
        assert(done.push(current@).drop_last() =~= done);
        if c == sep {
            let ghost last = current@;
            pieces.push(current);
            assert(views(pieces@) =~= done.push(last));
            current = String::new();
            assert(current@ =~= Seq::<char>::empty());
        } else {
            current.push(c);
        }
    }
    assert(s@.take(s@.len() as int) =~= s@);
    let ghost done = views(pieces@);
    let ghost last = current@;
    pieces.push(current);
    assert(views(pieces@) =~= done.push(last));
    pieces
}

/// `pieces` one after another, with `sep` between each two.
pub open spec fn join(pieces: Seq<Seq<char>>, sep: Seq<char>) -> Seq<char>
    decreases pieces.len(),
{
    if pieces.len() == 0 {
        Seq::empty()
    } else if pieces.len() == 1 {
        pieces[0]
    } else {
        join(pieces.drop_last(), sep) + sep + pieces.last()
    }
}

/// Puts `pieces` one after another, with `sep` between each two.
pub fn join_with(pieces: &[String], sep: &str) -> (s: String)
    ensures
        s@ == join(views(pieces@), sep@),
{
    let mut s = String::new();
    for i in 0..pieces.len()
        invariant
            s@ == join(views(pieces@.take(i as int)), sep@),
    {
        proof {
            let all = views(pieces@.take(i + 1));
            assert(all.drop_last() =~= views(pieces@.take(i as int)));
            if i == 0 {
                assert(all[0] == pieces@[0]@);
                assert(Seq::<char>::empty() + pieces@[0]@ =~= pieces@[0]@);
            }
        }
        if i > 0 {
            s.append(sep);
        }
        s.append(&pieces[i]);
    }
    assert(pieces@.take(pieces@.len() as int) =~= pieces@);
    s
}

pub proof fn lemma_split_nonempty(s: Seq<char>, sep: char)
    ensures
        split(s, sep).len() >= 1,
    decreases s.len(),
{
    if s.len() > 0 {
        lemma_split_nonempty(s.drop_last(), sep);
    }
}

/// Joining the pieces of a split with the separator gives the text back.
pub proof fn law_join_undoes_split(s: Seq<char>, sep: char)
    ensures
        join(split(s, sep), seq![sep]) == s,
    decreases s.len(),
{
    if s.len() > 0 {
        let init = s.drop_last();
        let before = split(init, sep);
        law_join_undoes_split(init, sep);
        lemma_split_nonempty(init, sep);
        assert(init.push(s.last()) =~= s);
        if s.last() == sep {
            let all = before.push(Seq::<char>::empty());
            assert(all.drop_last() =~= before);
            assert(init + seq![sep] + Seq::<char>::empty() =~= s);
        } else {
            let all = before.drop_last().push(before.last().push(s.last()));
            assert(all.drop_last() =~= before.drop_last());
            if before.len() > 1 {
                assert(join(before, seq![sep]) == join(before.drop_last(), seq![sep]) + seq![sep]
                    + before.last());
                assert(join(before.drop_last(), seq![sep]) + seq![sep] + before.last().push(
                    s.last(),
                ) =~= init.push(s.last()));
            }
        }
    }
}

/// No piece of a split holds the separator.
pub proof fn law_split_pieces_lack_separator(s: Seq<char>, sep: char)
    ensures
        forall|i: int| 0 <= i < split(s, sep).len() ==> !(#[trigger] split(s, sep)[i]).contains(sep),
    decreases s.len(),
{
    if s.len() > 0 {
        let before = split(s.drop_last(), sep);
        law_split_pieces_lack_separator(s.drop_last(), sep);
        lemma_split_nonempty(s.drop_last(), sep);
        assert(before.last() == before[before.len() - 1]);
        assert forall|i: int| 0 <= i < split(s, sep).len() implies !(#[trigger] split(
            s,
            sep,
        )[i]).contains(sep) by {
            if i < before.len() - 1 {
                assert(split(s, sep)[i] == before[i]);
            }
        }
    }
}

/// A character that a text lacks is in no piece of a split.
pub proof fn lemma_split_pieces_lack(s: Seq<char>, sep: char, c: char)
    requires
        !s.contains(c),
    ensures
        forall|i: int| 0 <= i < split(s, sep).len() ==> !(#[trigger] split(s, sep)[i]).contains(c),
    decreases s.len(),
{
    if s.len() > 0 {
        let init = s.drop_last();
        let before = split(init, sep);
        assert(!init.contains(c)) by {
            if init.contains(c) {
                assert(s[init.index_of(c)] == c);
            }
        }
        assert(s[s.len() - 1] != c);
        lemma_split_pieces_lack(init, sep, c);
        lemma_split_nonempty(init, sep);
        assert(before.last() == before[before.len() - 1]);
        assert forall|i: int| 0 <= i < split(s, sep).len() implies !(#[trigger] split(
            s,
            sep,
        )[i]).contains(c) by {
            if i < before.len() - 1 {
                assert(split(s, sep)[i] == before[i]);
            }
        }
    }
}

/// A character that the pieces and the separator lack is not in what is
/// joined from them.
pub proof fn lemma_join_lacks(pieces: Seq<Seq<char>>, sep: Seq<char>, c: char)
    requires
        !sep.contains(c),
        forall|i: int| 0 <= i < pieces.len() ==> !(#[trigger] pieces[i]).contains(c),
    ensures
        !join(pieces, sep).contains(c),
    decreases pieces.len(),
{
    if pieces.len() > 1 {
        let init = pieces.drop_last();
        assert forall|i: int| 0 <= i < init.len() implies !(#[trigger] init[i]).contains(c) by {
            assert(init[i] == pieces[i]);
        }
        lemma_join_lacks(init, sep, c);
        assert(pieces.last() == pieces[pieces.len() - 1]);
        let front = join(init, sep);
        if join(pieces, sep).contains(c) {
            let at = join(pieces, sep).index_of(c);
            if at < front.len() {
                assert(front[at] == c);
            } else if at < front.len() + sep.len() {
                assert(sep[at - front.len()] == c);
            } else {
                assert(pieces.last()[at - front.len() - sep.len()] == c);
            }
        }
    }
}

/// The piece after the last separator.
pub proof fn lemma_split_step(a: Seq<char>, b: Seq<char>, sep: char)
    requires
        !b.contains(sep),
    ensures
        split(a.push(sep) + b, sep) == split(a, sep).push(b),
        split(b, sep) == seq![b],
    decreases b.len(),
{
    if b.len() == 0 {
        assert(a.push(sep) + b =~= a.push(sep));
        assert(a.push(sep).drop_last() =~= a);
        assert(b =~= Seq::empty());
    } else {
        let init = b.drop_last();
        assert(!init.contains(sep)) by {
            if init.contains(sep) {
                assert(b[init.index_of(sep)] == sep);
            }
        }
        assert(b.last() != sep) by {
            if b.last() == sep {
                assert(b[b.len() - 1] == sep);
            }
        }
        lemma_split_step(a, init, sep);
        assert((a.push(sep) + b).drop_last() =~= a.push(sep) + init);
        assert(init.push(b.last()) =~= b);
        assert(split(a, sep).push(init).drop_last() =~= split(a, sep));
        assert(seq![init].drop_last() =~= Seq::empty());
        assert(Seq::empty().push(b) =~= seq![b]);
    }
}

/// What stands on the two sides of a separator is split on its own.
pub proof fn law_split_at_separator(a: Seq<char>, b: Seq<char>, sep: char)
    ensures
        split(a.push(sep) + b, sep) == split(a, sep) + split(b, sep),
    decreases b.len(),
{
    lemma_split_nonempty(b, sep);
    if b.len() == 0 {
        assert(a.push(sep) + b =~= a.push(sep));
        assert(a.push(sep).drop_last() =~= a);
        assert(split(a, sep) + split(b, sep) =~= split(a, sep).push(Seq::empty()));
    } else {
        let init = b.drop_last();
        law_split_at_separator(a, init, sep);
        lemma_split_nonempty(init, sep);
        assert((a.push(sep) + b).drop_last() =~= a.push(sep) + init);
        assert(split(a.push(sep) + b, sep) =~= split(a, sep) + split(b, sep));
    }
}

/// The first piece of a split begins as the text does.
pub proof fn lemma_first_piece(s: Seq<char>, sep: char)
    requires
        s.len() > 0,
        s[0] != sep,
    ensures
        split(s, sep)[0].len() > 0,
        split(s, sep)[0][0] == s[0],
    decreases s.len(),
{
    let init = s.drop_last();
    lemma_split_nonempty(init, sep);
    if s.len() > 1 {
        lemma_first_piece(init, sep);
        assert(init[0] == s[0]);
    } else {
        assert(init =~= Seq::empty());
        assert(split(init, sep) =~= seq![Seq::<char>::empty()]);
        assert(split(s, sep)[0] =~= seq![s[0]]);
    }
}

/// Splitting what was joined with a separator gives the pieces back, if
/// there are any and none of them holds the separator.
pub proof fn law_split_undoes_join(pieces: Seq<Seq<char>>, sep: char)
    requires
        pieces.len() > 0,
        forall|i: int| 0 <= i < pieces.len() ==> !(#[trigger] pieces[i]).contains(sep),
    ensures
        split(join(pieces, seq![sep]), sep) == pieces,
    decreases pieces.len(),
{
    let last = pieces.last();
    assert(last == pieces[pieces.len() - 1]);
    if pieces.len() == 1 {
        lemma_split_step(Seq::empty(), last, sep);
        assert(pieces =~= seq![last]);
    } else {
        let init = pieces.drop_last();
        assert forall|i: int| 0 <= i < init.len() implies !(#[trigger] init[i]).contains(sep) by {
            assert(init[i] == pieces[i]);
        }
        law_split_undoes_join(init, sep);
        let front = join(init, seq![sep]);
        assert(front + seq![sep] + last =~= front.push(sep) + last);
        lemma_split_step(front, last, sep);
        assert(init.push(last) =~= pieces);
    }
}

/// Whether `c` is white space: the characters of Unicode's White_Space
/// property.
pub open spec fn is_space(c: char) -> bool {
    ||| 0x09 <= c as u32 && c as u32 <= 0x0d
    ||| c as u32 == 0x20
    ||| c as u32 == 0x85
    ||| c as u32 == 0xa0
    ||| c as u32 == 0x1680
    ||| 0x2000 <= c as u32 && c as u32 <= 0x200a
    ||| c as u32 == 0x2028
    ||| c as u32 == 0x2029
    ||| c as u32 == 0x202f
    ||| c as u32 == 0x205f
    ||| c as u32 == 0x3000
}

/// Whether `c` is white space.
pub fn is_whitespace(c: char) -> (r: bool)
    ensures
        r == is_space(c),
{
    let code: u32 = c as u32;
    (0x09 <= code && code <= 0x0d) || code == 0x20 || code == 0x85 || code == 0xa0 || code == 0x1680
        || (0x2000 <= code && code <= 0x200a) || code == 0x2028 || code == 0x2029 || code == 0x202f
        || code == 0x205f || code == 0x3000
}

/// `s` without the white space at its end.
pub open spec fn trim_end(s: Seq<char>) -> Seq<char>
    decreases s.len(),
{
    if s.len() > 0 && is_space(s.last()) {
        trim_end(s.drop_last())
    } else {
        s
    }
}

/// `s` without the white space at its beginning.
pub open spec fn trim_start(s: Seq<char>) -> Seq<char>
    decreases s.len(),
{
    if s.len() > 0 && is_space(s.first()) {
        trim_start(s.drop_first())
    } else {
        s
    }
}

/// `s` without the white space at its two ends.
pub open spec fn trimmed(s: Seq<char>) -> Seq<char> {
    trim_end(trim_start(s))
}

/// Takes the white space off both ends of `s`.
pub fn trim(s: &str) -> (r: String)
    ensures
        r@ == trimmed(s@),
{
    let chars = chars_of(s);
    let mut start: usize = 0;
    assert(chars@.skip(0) =~= chars@);
    while start < chars.len() && is_whitespace(chars[start])
        invariant
            start <= chars@.len(),
            trim_start(chars@.skip(start as int)) == trim_start(chars@),
        decreases chars@.len() - start,
    {
        assert(chars@.skip(start as int).drop_first() =~= chars@.skip(start + 1));
        start = start + 1;
    }
    let ghost rest = chars@.skip(start as int);
    assert(trim_start(chars@) == rest);
    let mut end: usize = chars.len();
    while end > start && is_whitespace(chars[end - 1])
        invariant
            start <= end <= chars@.len(),
            rest == chars@.skip(start as int),
            trim_end(chars@.subrange(start as int, end as int)) == trim_end(rest),
        decreases end - start,
    {
        assert(chars@.subrange(start as int, end as int).drop_last() =~= chars@.subrange(
            start as int,
            end - 1,
        ));
        end = end - 1;
    }
    string_of(&chars[start..end])
}

/// The runs of characters that white space keeps apart.
pub open spec fn words(s: Seq<char>) -> Seq<Seq<char>>
    decreases s.len(),
{
    if s.len() == 0 {
        Seq::empty()
    } else {
        let before = words(s.drop_last());
        if is_space(s.last()) {
            before
        } else if s.len() >= 2 && !is_space(s[s.len() - 2]) {
            before.drop_last().push(before.last().push(s.last()))
        } else {
            before.push(seq![s.last()])
        }
    }
}

/// Cuts `s` into its words.
pub fn split_whitespace(s: &str) -> (pieces: Vec<String>)
    ensures
        views(pieces@) == words(s@),
{
    let mut pieces: Vec<String> = Vec::new();
    let mut current: Option<String> = None;
    for c in it: s.chars()
        invariant
            it.seq() == s@,
            words(s@.take(it.index())) == match current {
                Some(word) => views(pieces@).push(word@),
                None => views(pieces@),
            },
            current is Some <==> it.index() > 0 && !is_space(s@[it.index() - 1]),
    {
        let ghost done = views(pieces@);
        assert(s@.take(it.index() + 1).drop_last() =~= s@.take(it.index()));
        if is_whitespace(c) {
            if let Some(word) = current {
                let ghost last = word@;
                pieces.push(word);
                assert(views(pieces@) =~= done.push(last));
            }
            current = None;
        } else {
            match current {
                Some(word) => {
                    let mut word = word;
                    assert(done.push(word@).drop_last() =~= done);
                    word.push(c);
                    current = Some(word);
                },
                None => {
                    let mut word = String::new();
                    word.push(c);
                    assert(word@ =~= seq![c]);
                    current = Some(word);
                },
            }
        }
    }
    assert(s@.take(s@.len() as int) =~= s@);
    let ghost done = views(pieces@);
    if let Some(word) = current {
        let ghost last = word@;
        pieces.push(word);
        assert(views(pieces@) =~= done.push(last));
    }
    pieces
}

/// The decimal digit for a number below ten.
pub open spec fn digit(n: nat) -> char {
    (('0' as u32) + n) as char
}

/// `n` in decimal, without leading zeros.
pub open spec fn decimal(n: nat) -> Seq<char>
    decreases n,
{
    if n < 10 {
        seq![digit(n)]
    } else {
        decimal(n / 10).push(digit(n % 10))
    }
}

/// Writes `n` in decimal at the end of `s`.
pub fn append_decimal(s: &mut String, n: u64)
    ensures
        final(s)@ == old(s)@ + decimal(n as nat),
    decreases n,
{
    if n >= 10 {
        append_decimal(s, n / 10);
    }
    let c: char = digit_char((n % 10) as u8);
    s.push(c);
}

fn digit_char(n: u8) -> (c: char)
    requires
        n < 10,
    ensures
        c == digit(n as nat),
{
    (48u8 + n) as char
}

/// The characters of `s` with every `from` turned into `to`.
pub open spec fn replaced(s: Seq<char>, from: char, to: char) -> Seq<char> {
    s.map_values(
        |c: char|
            if c == from {
                to
            } else {
                c
            },
    )
}

/// Turns every `from` in `s` into `to`.
pub fn replace(s: &str, from: char, to: char) -> (r: String)
    ensures
        r@ == replaced(s@, from, to),
{
    let mut r = String::new();
    for c in it: s.chars()
        invariant
            it.seq() == s@,
            r@ == replaced(s@.take(it.index()), from, to),
    {
        assert(s@.take(it.index() + 1) =~= s@.take(it.index()).push(c));
        if c == from {
            r.push(to);
        } else {
            r.push(c);
        }
        assert(r@ =~= replaced(s@.take(it.index() + 1), from, to));
    }
    assert(s@.take(s@.len() as int) =~= s@);
    r
}

/// Whether `a` comes before `b` in the order of their code points, the
/// first difference deciding.
pub open spec fn precedes(a: Seq<char>, b: Seq<char>) -> bool
    decreases a.len(),
{
    if b.len() == 0 {
        false
    } else if a.len() == 0 {
        true
    } else if a[0] != b[0] {
        (a[0] as int) < (b[0] as int)
    } else {
        precedes(a.drop_first(), b.drop_first())
    }
}

/// Whether `a` comes before `b` in the order of their code points.
pub fn is_before(a: &str, b: &str) -> (r: bool)
    ensures
        r == precedes(a@, b@),
{
    let mut left = a.chars();
    let mut right = b.chars();
    let ghost mut seen: int = 0;
    assert(a@.skip(0) =~= a@);
    assert(b@.skip(0) =~= b@);
    loop
        invariant
            0 <= seen <= a@.len(),
            seen <= b@.len(),
            precedes(a@, b@) == precedes(a@.skip(seen), b@.skip(seen)),
            left.remaining() == a@.skip(seen),
            right.remaining() == b@.skip(seen),
        decreases a@.len() - seen,
    {
        match (left.next(), right.next()) {
            (_, None) => {
                return false;
            },
            (None, Some(_)) => {
                return true;
            },
            (Some(c), Some(d)) => {
                if c != d {
                    return c < d;
                }
                proof {
                    assert(a@.skip(seen).drop_first() =~= a@.skip(seen + 1));
                    assert(b@.skip(seen).drop_first() =~= b@.skip(seen + 1));
                    seen = seen + 1;
                }
            },
        }
    }
}

/// What follows the first `sep` in `s`, if there is one.
pub open spec fn after_first(s: Seq<char>, sep: char) -> Option<Seq<char>>
    decreases s.len(),
{
    if s.len() == 0 {
        None
    } else if s.first() == sep {
        Some(s.drop_first())
    } else {
        after_first(s.drop_first(), sep)
    }
}

/// What follows the first `sep` in `s`, if there is one.
pub fn split_once_after(s: &str, sep: char) -> (rest: Option<String>)
    ensures
        opt_view(rest) == after_first(s@, sep),
{
    let chars = chars_of(s);
    let mut at: usize = 0;
    assert(chars@.skip(0) =~= chars@);
    while at < chars.len()
        invariant
            chars@ == s@,
            at <= chars@.len(),
            after_first(chars@.skip(at as int), sep) == after_first(chars@, sep),
        decreases chars@.len() - at,
    {
        assert(chars@.skip(at as int).drop_first() =~= chars@.skip(at + 1));
        if chars[at] == sep {
            assert(chars@.subrange(at + 1, chars@.len() as int) =~= chars@.skip(at + 1));
            return Some(string_of(&chars[at + 1..chars.len()]));
        }
        at = at + 1;
    }
    None
}

/// What precedes the last `sep` in `s`; nothing if there is none.
pub open spec fn before_last(s: Seq<char>, sep: char) -> Seq<char>
    decreases s.len(),
{
    if s.len() == 0 {
        s
    } else if s.last() == sep {
        s.drop_last()
    } else {
        before_last(s.drop_last(), sep)
    }
}

/// Whether a piece of a path begins as the name of a drive does: with a letter
/// and a colon.
pub open spec fn names_drive(piece: Seq<char>) -> bool {
    &&& piece.len() >= 2 && piece[1] == ':'
    &&& 'a' <= piece[0] <= 'z' || 'A' <= piece[0] <= 'Z'
}

/// Whether a path is written so that every system cuts it at its slashes and
/// nowhere else: without a backslash, without a piece that some systems take
/// for a drive, and without the two slashes at its start that they take for
/// the name of a server.
pub open spec fn is_portable_path(path: Seq<char>) -> bool {
    &&& !path.contains('\\') && !"//"@.is_prefix_of(path)
    &&& forall|i: int|
        0 <= i < split(path, '/').len() ==> !names_drive(#[trigger] split(path, '/')[i])
}

/// The pieces of a path without those at the end that lead nowhere: what
/// stands around a slash too many, and single dots. The first piece stays.
pub open spec fn trim_pieces(pieces: Seq<Seq<char>>) -> Seq<Seq<char>>
    decreases pieces.len(),
{
    if pieces.len() > 1 && (pieces.last().len() == 0 || pieces.last() == "."@) {
        trim_pieces(pieces.drop_last())
    } else {
        pieces
    }
}

/// The last piece of a path that is neither empty nor a dot, if it has one.
pub open spec fn last_piece(path: Seq<char>) -> Seq<char> {
    trim_pieces(split(path, '/')).last()
}

/// The path of the directory that a path lies in: what precedes its last
/// piece. A single piece lies in the empty path; the root and the empty path
/// lie in nothing.
pub open spec fn path_above(path: Seq<char>) -> Option<Seq<char>> {
    let pieces = trim_pieces(split(path, '/'));
    if pieces.len() == 1 {
        if pieces[0].len() == 0 {
            None
        } else {
            Some(Seq::empty())
        }
    } else {
        let above = trim_pieces(pieces.drop_last());
        if above.len() == 1 && above[0].len() == 0 {
            Some("/"@)
        } else {
            Some(join(above, "/"@))
        }
    }
}

/// A file lies in its directory: a name after a path and a slash is the last
/// piece of the whole, and the path is what is above it.
pub proof fn law_a_file_lies_in_its_directory(directory: Seq<char>, name: Seq<char>)
    requires
        directory.len() > 0,
        trim_pieces(split(directory, '/')) == split(directory, '/'),
        name.len() > 0,
        name != "."@,
        !name.contains('/'),
    ensures
        path_above(directory + "/"@ + name) == Some(directory),
        last_piece(directory + "/"@ + name) == name,
        path_above(name) == Some(Seq::<char>::empty()),
        last_piece(name) == name,
{
    let pieces = split(directory, '/');
    reveal_strlit("/");
    assert("/"@ =~= seq!['/']);
    assert(directory + "/"@ + name =~= directory.push('/') + name);
    lemma_split_step(directory, name, '/');
    lemma_split_nonempty(directory, '/');
    assert(pieces.push(name).drop_last() =~= pieces);
    law_join_undoes_split(directory, '/');
    if pieces.len() == 1 {
        assert(join(pieces, "/"@) == pieces[0]);
    }
}

/// What precedes the last `sep` in `s`; nothing if there is none.
pub fn rsplit_before(s: &str, sep: char) -> (r: String)
    ensures
        r@ == before_last(s@, sep),
{
    let chars = chars_of(s);
    let mut end: usize = chars.len();
    assert(chars@.take(end as int) =~= chars@);
    while end > 0
        invariant
            chars@ == s@,
            end <= chars@.len(),
            before_last(chars@.take(end as int), sep) == before_last(chars@, sep),
        decreases end,
    {
        assert(chars@.take(end as int).drop_last() =~= chars@.take(end - 1));
        end = end - 1;
        if chars[end] == sep {
            return string_of(&chars[0..end]);
        }
    }
    String::new()
}

/// `s` without the slashes at its end.
pub open spec fn trim_end_slashes(s: Seq<char>) -> Seq<char>
    decreases s.len(),
{
    if s.len() > 0 && s.last() == '/' {
        trim_end_slashes(s.drop_last())
    } else {
        s
    }
}

/// Takes the slashes off the end of `s`.
pub fn trim_slashes(s: &str) -> (r: String)
    ensures
        r@ == trim_end_slashes(s@),
{
    let chars = chars_of(s);
    let mut end: usize = chars.len();
    assert(chars@.take(end as int) =~= chars@);
    while end > 0 && chars[end - 1] == '/'
        invariant
            end <= chars@.len(),
            trim_end_slashes(chars@.take(end as int)) == trim_end_slashes(chars@),
        decreases end,
    {
        assert(chars@.take(end as int).drop_last() =~= chars@.take(end - 1));
        end = end - 1;
    }
    string_of(&chars[0..end])
}

/// Of two texts exactly one comes first, or they are the same; and what comes
/// before what comes before a text comes before it.
pub proof fn law_precedes_is_a_strict_order(a: Seq<char>, b: Seq<char>, c: Seq<char>)
    ensures
        !precedes(a, a),
        a == b || precedes(a, b) || precedes(b, a),
        !(precedes(a, b) && precedes(b, a)),
        precedes(a, b) && precedes(b, c) ==> precedes(a, c),
    decreases a.len(),
{
    if a.len() == 0 {
        if b.len() == 0 {
            assert(a =~= b);
        }
    } else {
        let rest = a.drop_first();
        if b.len() > 0 && a[0] == b[0] {
            assert(precedes(a, b) == precedes(rest, b.drop_first()));
            assert(precedes(b, a) == precedes(b.drop_first(), rest));
        }
        if b.len() > 0 && c.len() > 0 {
            law_precedes_is_a_strict_order(rest, b.drop_first(), c.drop_first());
            if a[0] == b[0] && rest == b.drop_first() {
                assert(a =~= seq![a[0]] + rest);
                assert(b =~= seq![b[0]] + b.drop_first());
            }
        } else if b.len() > 0 {
            law_precedes_is_a_strict_order(rest, b.drop_first(), rest);
            if a[0] == b[0] && rest == b.drop_first() {
                assert(a =~= seq![a[0]] + rest);
                assert(b =~= seq![b[0]] + b.drop_first());
            }
        } else {
            law_precedes_is_a_strict_order(rest, rest, rest);
        }
    }
}

/// Whether each text comes before all that follow it; none stands twice.
pub open spec fn is_strictly_sorted(texts: Seq<Seq<char>>) -> bool {
    forall|i: int, j: int|
        0 <= i < j < texts.len() ==> precedes(#[trigger] texts[i], #[trigger] texts[j])
}

/// Puts `item` in its place in a sorted list, unless it is there.
fn insert_sorted(list: &mut Vec<String>, item: String)
    requires
        is_strictly_sorted(views(old(list)@)),
    ensures
        is_strictly_sorted(views(final(list)@)),
        forall|t: Seq<char>| #[trigger]
            views(final(list)@).contains(t) <==> views(old(list)@).contains(t) || t == item@,
{
    let ghost before = views(list@);
    let ghost added = item@;
    let mut at: usize = 0;
    while at < list.len() && is_before(&list[at], &item)
        invariant
            *list == *old(list),
            before == views(list@),
            at <= list@.len(),
            item@ == added,
            forall|k: int| 0 <= k < at ==> precedes(#[trigger] before[k], added),
        decreases list@.len() - at,
    {
        assert(before[at as int] == list@[at as int]@);
        at = at + 1;
    }
    if at < list.len() && same(&list[at], &item) {
        assert(before[at as int] == added);
        assert(before.contains(added));
    } else {
        proof {
            if at < list@.len() {
                assert(before[at as int] == list@[at as int]@);
                law_precedes_is_a_strict_order(before[at as int], added, added);
            }
        }
        list.insert(at, item);
        proof {
            let after = views(list@);
            assert(after =~= before.insert(at as int, added));
            assert forall|i: int, j: int| 0 <= i < j < after.len() implies precedes(
                #[trigger] after[i],
                #[trigger] after[j],
            ) by {
                if i < at && j > at {
                    assert(after[i] == before[i] && after[j] == before[j - 1]);
                } else if i == at {
                    assert(after[j] == before[j - 1]);
                    if j - 1 > at {
                        law_precedes_is_a_strict_order(added, before[at as int], before[j - 1]);
                    }
                } else if i > at {
                    assert(after[i] == before[i - 1] && after[j] == before[j - 1]);
                } else if j == at {
                    assert(after[i] == before[i]);
                } else {
                    assert(after[i] == before[i] && after[j] == before[j]);
                }
            }
            assert forall|t: Seq<char>| #[trigger]
                after.contains(t) <==> before.contains(t) || t == added by {
                if before.contains(t) {
                    let k = before.index_of(t);
                    if k < at {
                        assert(after[k] == t);
                    } else {
                        assert(after[k + 1] == t);
                    }
                }
                if t == added {
                    assert(after[at as int] == t);
                }
                if after.contains(t) && t != added {
                    let k = after.index_of(t);
                    if k < at {
                        assert(before[k] == t);
                    } else {
                        assert(before[k - 1] == t);
                    }
                }
            }
        }
    }
}

/// The texts in order, each once.
pub fn sort_and_dedup(items: Vec<String>) -> (sorted: Vec<String>)
    ensures
        is_strictly_sorted(views(sorted@)),
        forall|t: Seq<char>| #[trigger]
            views(sorted@).contains(t) <==> views(items@).contains(t),
{
    let ghost all = views(items@);
    let mut sorted: Vec<String> = Vec::new();
    for item in it: items
        invariant
            it.seq() == items@,
            all == views(items@),
            is_strictly_sorted(views(sorted@)),
            forall|t: Seq<char>| #[trigger]
                views(sorted@).contains(t) <==> all.take(it.index()).contains(t),
    {
        proof {
            let seen = all.take(it.index());
            let more = all.take(it.index() + 1);
            assert(more =~= seen.push(item@));
            assert forall|t: Seq<char>| #[trigger]
                more.contains(t) <==> seen.contains(t) || t == item@ by {
                if seen.contains(t) {
                    assert(more[seen.index_of(t)] == t);
                }
                if t == item@ {
                    assert(more[it.index()] == t);
                }
                if more.contains(t) && t != item@ {
                    assert(seen[more.index_of(t)] == t);
                }
            }
        }
        insert_sorted(&mut sorted, item);
    }
    assert(all.take(all.len() as int) =~= all);
    sorted
}

/// There is one way only to list texts in order, each once.
pub proof fn law_sorted_lists_are_determined(a: Seq<Seq<char>>, b: Seq<Seq<char>>)
    requires
        is_strictly_sorted(a),
        is_strictly_sorted(b),
        forall|t: Seq<char>| #[trigger] a.contains(t) <==> b.contains(t),
    ensures
        a == b,
    decreases a.len(),
{
    if a.len() == 0 {
        if b.len() > 0 {
            assert(b.contains(b[0]));
            assert(a.contains(b[0]));
        }
        assert(a =~= b);
    } else {
        assert(a.contains(a[0]));
        assert(b.contains(a[0]));
        assert(b.contains(b[0]));
        assert(a.contains(b[0]));
        let i = b.index_of(a[0]);
        let j = a.index_of(b[0]);
        law_precedes_is_a_strict_order(a[0], b[0], a[0]);
        assert(a[0] == b[0]) by {
            if i > 0 && j > 0 {
                assert(precedes(b[0], b[i]));
                assert(precedes(a[0], a[j]));
            }
        }
        let x = a.drop_first();
        let y = b.drop_first();
        assert forall|t: Seq<char>| #[trigger] x.contains(t) <==> y.contains(t) by {
            if x.contains(t) {
                let k = x.index_of(t);
                assert(a[k + 1] == t);
                assert(a.contains(t));
                assert(b.contains(t));
                let m = b.index_of(t);
                if m == 0 {
                    assert(precedes(a[0], a[k + 1]));
                    law_precedes_is_a_strict_order(a[0], a[0], a[0]);
                }
                assert(y[m - 1] == t);
            }
            if y.contains(t) {
                let k = y.index_of(t);
                assert(b[k + 1] == t);
                assert(b.contains(t));
                assert(a.contains(t));
                let m = a.index_of(t);
                if m == 0 {
                    assert(precedes(b[0], b[k + 1]));
                    law_precedes_is_a_strict_order(b[0], b[0], b[0]);
                }
                assert(x[m - 1] == t);
            }
        }
        assert forall|i: int, j: int| 0 <= i < j < x.len() implies precedes(
            #[trigger] x[i],
            #[trigger] x[j],
        ) by {
            assert(x[i] == a[i + 1] && x[j] == a[j + 1]);
        }
        assert forall|i: int, j: int| 0 <= i < j < y.len() implies precedes(
            #[trigger] y[i],
            #[trigger] y[j],
        ) by {
            assert(y[i] == b[i + 1] && y[j] == b[j + 1]);
        }
        law_sorted_lists_are_determined(x, y);
        assert(a =~= seq![a[0]] + x);
        assert(b =~= seq![b[0]] + y);
    }
}

/// What follows the same text is the same.
pub proof fn lemma_same_start(start: Seq<char>, a: Seq<char>, b: Seq<char>)
    ensures
        start + a == start + b <==> a == b,
{
    assert((start + a).skip(start.len() as int) =~= a);
    assert((start + b).skip(start.len() as int) =~= b);
}

/// A text holds another where it can be cut into what precedes it, itself and
/// what follows it.
pub proof fn law_infixes_stand_between(s: Seq<char>, needle: Seq<char>)
    ensures
        has_infix(s, needle) <==> exists|a: Seq<char>, b: Seq<char>| s == #[trigger] (a + needle + b),
{
    if has_infix(s, needle) {
        let at = choose|at: int| occurs_at(s, needle, at);
        let a = s.take(at);
        let b = s.skip(at + needle.len());
        assert(s =~= (a + needle) + b) by {
            assert forall|k: int| at <= k < at + needle.len() implies s[k] == needle[k - at] by {
                assert(s.subrange(at, at + needle.len())[k - at] == s[k]);
            }
        }
    }
    if exists|a: Seq<char>, b: Seq<char>| s == #[trigger] (a + needle + b) {
        let (a, b) = choose|a: Seq<char>, b: Seq<char>| s == #[trigger] (a + needle + b);
        assert(s.subrange(a.len() as int, a.len() as int + needle.len()) =~= needle);
        assert(occurs_at(s, needle, a.len() as int));
    }
}

/// A text begins with another where it is that text and a rest.
pub proof fn lemma_prefix_and_rest(s: Seq<char>, prefix: Seq<char>)
    ensures
        prefix.is_prefix_of(s) <==> exists|end: Seq<char>| s == #[trigger] (prefix + end),
{
    if prefix.is_prefix_of(s) {
        assert(s =~= prefix + s.skip(prefix.len() as int)) by {
            assert forall|k: int| 0 <= k < prefix.len() implies s[k] == prefix[k] by {
                assert(s.subrange(0, prefix.len() as int)[k] == s[k]);
            }
        }
    }
    if exists|end: Seq<char>| s == #[trigger] (prefix + end) {
        let end = choose|end: Seq<char>| s == #[trigger] (prefix + end);
        assert(s.subrange(0, prefix.len() as int) =~= prefix);
    }
}

/// Blanks, tabs and the ends of lines are white space; letters, digits and the
/// other printable characters of ASCII are not.
pub proof fn law_white_space(c: char)
    ensures
        is_space(' ') && is_space('\t') && is_space('\n') && is_space('\r'),
        '!' <= c <= '~' ==> !is_space(c),
{
}

/// Whether a text is all white space.
pub open spec fn is_blank(s: Seq<char>) -> bool {
    forall|i: int| 0 <= i < s.len() ==> is_space(#[trigger] s[i])
}

proof fn lemma_trim_end(s: Seq<char>, blank: Seq<char>)
    requires
        is_blank(blank),
    ensures
        trim_end(s + blank) == trim_end(s),
    decreases blank.len(),
{
    if blank.len() == 0 {
        assert(s + blank =~= s);
    } else {
        let init = blank.drop_last();
        assert forall|i: int| 0 <= i < init.len() implies is_space(#[trigger] init[i]) by {
            assert(init[i] == blank[i]);
        }
        assert(is_space(blank[blank.len() - 1]));
        lemma_trim_end(s, init);
        assert((s + blank).drop_last() =~= s + init);
    }
}

proof fn lemma_trim_start(blank: Seq<char>, s: Seq<char>)
    requires
        is_blank(blank),
    ensures
        trim_start(blank + s) == trim_start(s),
    decreases blank.len(),
{
    if blank.len() == 0 {
        assert(blank + s =~= s);
    } else {
        let rest = blank.drop_first();
        assert forall|i: int| 0 <= i < rest.len() implies is_space(#[trigger] rest[i]) by {
            assert(rest[i] == blank[i + 1]);
        }
        assert(is_space(blank[0]));
        lemma_trim_start(rest, s);
        assert((blank + s).drop_first() =~= rest + s);
    }
}

/// Trimming takes off the white space at the two ends and nothing else.
pub proof fn law_trimming_takes_off_white_space(before: Seq<char>, s: Seq<char>, after: Seq<char>)
    requires
        is_blank(before),
        is_blank(after),
        s.len() > 0 ==> !is_space(s[0]) && !is_space(s[s.len() - 1]),
    ensures
        trimmed(before + s + after) == s,
{
    assert(before + s + after =~= before + (s + after));
    lemma_trim_start(before, s + after);
    if s.len() == 0 {
        assert(s + after =~= after + s);
        lemma_trim_start(after, s);
    } else {
        assert((s + after)[0] == s[0]);
        lemma_trim_end(s, after);
    }
}

proof fn lemma_word(s: Seq<char>)
    requires
        s.len() > 0,
        forall|i: int| 0 <= i < s.len() ==> !is_space(#[trigger] s[i]),
    ensures
        words(s) == seq![s],
    decreases s.len(),
{
    let init = s.drop_last();
    assert(!is_space(s[s.len() - 1]));
    if init.len() == 0 {
        assert(words(init) =~= Seq::empty());
        assert(seq![s.last()] =~= s);
        assert(words(s) =~= seq![s]);
    } else {
        assert forall|i: int| 0 <= i < init.len() implies !is_space(#[trigger] init[i]) by {
            assert(init[i] == s[i]);
        }
        lemma_word(init);
        assert(!is_space(s[s.len() - 2]));
        assert(init.push(s.last()) =~= s);
        assert(words(s) =~= seq![s]);
    }
}

proof fn lemma_words_kept_apart(a: Seq<char>, c: char, b: Seq<char>)
    requires
        is_space(c),
    ensures
        words(a.push(c) + b) == words(a) + words(b),
        b.len() > 0 && !is_space(b.last()) ==> words(b).len() > 0,
    decreases b.len(),
{
    let whole = a.push(c) + b;
    if b.len() == 0 {
        assert(whole =~= a.push(c));
        assert(whole.drop_last() =~= a);
        assert(words(a) + words(b) =~= words(a));
    } else {
        let init = b.drop_last();
        lemma_words_kept_apart(a, c, init);
        assert(whole.drop_last() =~= a.push(c) + init);
        assert(whole.last() == b.last());
        if !is_space(b.last()) {
            if init.len() == 0 {
                assert(whole[whole.len() - 2] == c);
                assert(words(init) =~= Seq::empty());
                assert(words(whole) =~= words(a) + words(b));
            } else {
                assert(whole[whole.len() - 2] == init.last());
                assert(b[b.len() - 2] == init.last());
                assert(words(whole) =~= words(a) + words(b));
            }
        }
    }
}

/// A text without white space is one word, and white space keeps words apart
/// wherever it stands.
pub proof fn law_white_space_keeps_words_apart(a: Seq<char>, c: char, b: Seq<char>, word: Seq<char>)
    requires
        is_space(c),
        word.len() > 0,
        forall|i: int| 0 <= i < word.len() ==> !is_space(#[trigger] word[i]),
    ensures
        words(Seq::empty()).len() == 0,
        words(word) == seq![word],
        words(a.push(c) + b) == words(a) + words(b),
{
    lemma_word(word);
    lemma_words_kept_apart(a, c, b);
}

/// The number that digits stand for.
pub open spec fn value_of(digits: Seq<char>) -> int
    decreases digits.len(),
{
    if digits.len() == 0 {
        0
    } else {
        10 * value_of(digits.drop_last()) + (digits.last() as int - '0' as int)
    }
}

/// A number is written in digits that stand for it, without leading zeros.
pub proof fn law_decimals_stand_for_their_number(n: nat)
    ensures
        value_of(decimal(n)) == n,
        decimal(n).len() > 0,
        n > 0 ==> decimal(n)[0] != '0',
        n == 0 ==> decimal(n) == seq!['0'],
        forall|i: int| 0 <= i < decimal(n).len() ==> '0' <= #[trigger] decimal(n)[i] <= '9',
    decreases n,
{
    let last = decimal(n).last();
    reveal_with_fuel(value_of, 2);
    if n < 10 {
        assert(decimal(n).drop_last() =~= Seq::empty());
    } else {
        law_decimals_stand_for_their_number(n / 10);
        assert(decimal(n).drop_last() =~= decimal(n / 10));
        assert(n == 10 * (n / 10) + n % 10);
        assert(decimal(n)[0] == decimal(n / 10)[0]);
    }
}

/// Different numbers are written differently.
pub proof fn law_decimals_tell_numbers_apart(a: nat, b: nat)
    requires
        decimal(a) == decimal(b),
    ensures
        a == b,
{
    law_decimals_stand_for_their_number(a);
    law_decimals_stand_for_their_number(b);
}

/// Where a character is replaced, it is gone, and the others are what and where
/// they were.
pub proof fn law_replacing_touches_one_character(s: Seq<char>, from: char, to: char, i: int)
    requires
        0 <= i < s.len(),
    ensures
        replaced(s, from, to).len() == s.len(),
        s[i] == from ==> replaced(s, from, to)[i] == to,
        s[i] != from ==> replaced(s, from, to)[i] == s[i],
        from != to ==> !replaced(s, from, to).contains(from),
{
}

/// The first difference decides which of two texts comes first, and a text
/// comes before every longer one that begins with it.
pub proof fn law_the_first_difference_decides(
    start: Seq<char>,
    a: char,
    b: char,
    x: Seq<char>,
    y: Seq<char>,
)
    requires
        (a as int) < (b as int),
    ensures
        precedes(start.push(a) + x, start.push(b) + y),
        !precedes(start.push(b) + y, start.push(a) + x),
        precedes(start, start.push(a) + x),
        !precedes(start.push(a) + x, start),
    decreases start.len(),
{
    let left = start.push(a) + x;
    let right = start.push(b) + y;
    if start.len() > 0 {
        let rest = start.drop_first();
        assert(left.drop_first() =~= rest.push(a) + x);
        assert(right.drop_first() =~= rest.push(b) + y);
        law_the_first_difference_decides(rest, a, b, x, y);
    }
}

/// What follows the first separator is all that stands after a piece without
/// one and the separator.
pub proof fn law_what_follows_the_first_separator(a: Seq<char>, sep: char, b: Seq<char>)
    requires
        !a.contains(sep),
    ensures
        after_first(a.push(sep) + b, sep) == Some(b),
        after_first(a, sep) is None,
    decreases a.len(),
{
    let whole = a.push(sep) + b;
    if a.len() == 0 {
        assert(whole.drop_first() =~= b);
    } else {
        let rest = a.drop_first();
        assert(a[0] != sep);
        assert(!rest.contains(sep)) by {
            if rest.contains(sep) {
                assert(a[rest.index_of(sep) + 1] == sep);
            }
        }
        law_what_follows_the_first_separator(rest, sep, b);
        assert(whole.drop_first() =~= rest.push(sep) + b);
    }
}

/// What precedes the last separator is all that stands before it and a piece
/// without one.
pub proof fn law_what_precedes_the_last_separator(a: Seq<char>, sep: char, b: Seq<char>)
    requires
        !b.contains(sep),
    ensures
        before_last(a.push(sep) + b, sep) == a,
        before_last(b, sep).len() == 0,
    decreases b.len(),
{
    let whole = a.push(sep) + b;
    if b.len() == 0 {
        assert(whole =~= a.push(sep));
        assert(whole.drop_last() =~= a);
    } else {
        let init = b.drop_last();
        assert(b[b.len() - 1] != sep);
        assert(!init.contains(sep)) by {
            if init.contains(sep) {
                assert(b[init.index_of(sep)] == sep);
            }
        }
        law_what_precedes_the_last_separator(a, sep, init);
        assert(whole.drop_last() =~= a.push(sep) + init);
    }
}

/// Slashes at the end are taken off, all of them and nothing else.
pub proof fn law_slashes_at_the_end_are_taken_off(s: Seq<char>)
    ensures
        trim_end_slashes(s.push('/')) == trim_end_slashes(s),
        s.len() > 0 && s[s.len() - 1] != '/' ==> trim_end_slashes(s) == s,
        trim_end_slashes(Seq::empty()).len() == 0,
{
    assert(s.push('/').drop_last() =~= s);
}

/// A text that is split holds one piece more than it holds separators, and
/// what stands between two of them is a piece: splitting a piece without a
/// separator gives the piece alone.
pub proof fn law_splitting_piece_by_piece(s: Seq<char>, sep: char, piece: Seq<char>)
    requires
        !piece.contains(sep),
    ensures
        split(piece, sep) == seq![piece],
        split(s.push(sep) + piece, sep) == split(s, sep).push(piece),
{
    lemma_split_step(s, piece, sep);
}

/// Joining puts the separator between each two pieces.
pub proof fn law_joining_piece_by_piece(pieces: Seq<Seq<char>>, piece: Seq<char>, sep: Seq<char>)
    ensures
        join(Seq::empty(), sep).len() == 0,
        join(seq![piece], sep) == piece,
        pieces.len() > 0 ==> join(pieces.push(piece), sep) == join(pieces, sep) + sep + piece,
{
    assert(pieces.push(piece).drop_last() =~= pieces);
}

/// A slash or a single dot at the end of a path makes no difference to where it
/// lies and to its last piece.
pub proof fn law_the_end_of_a_path_makes_no_difference(path: Seq<char>)
    ensures
        path_above(path.push('/')) == path_above(path),
        last_piece(path.push('/')) == last_piece(path),
        path_above(path + "/."@) == path_above(path),
        last_piece(path + "/."@) == last_piece(path),
{
    let pieces = split(path, '/');
    reveal_strlit(".");
    reveal_strlit("/.");
    lemma_split_nonempty(path, '/');
    assert(path.push('/') + Seq::empty() =~= path.push('/'));
    lemma_split_step(path, Seq::empty(), '/');
    assert(path + "/."@ =~= path.push('/') + "."@);
    lemma_split_step(path, "."@, '/');
    assert(pieces.push(Seq::empty()).drop_last() =~= pieces);
    assert(pieces.push("."@).drop_last() =~= pieces);
}

/// What stands right below the root lies in the root, and neither the root nor
/// the empty path lies in anything.
pub proof fn law_what_lies_in_the_root(name: Seq<char>)
    requires
        name.len() > 0,
        name != "."@,
        !name.contains('/'),
    ensures
        path_above("/"@ + name) == Some("/"@),
        last_piece("/"@ + name) == name,
        path_above("/"@) is None,
        path_above(Seq::empty()) is None,
{
    let none = Seq::<char>::empty();
    reveal_strlit("/");
    assert("/"@ + name =~= none.push('/') + name);
    assert("/"@ =~= none.push('/') + none);
    lemma_split_step(none, name, '/');
    lemma_split_step(none, none, '/');
    assert(seq![none].push(name).drop_last() =~= seq![none]);
    assert(seq![none].push(none).drop_last() =~= seq![none]);
    reveal_with_fuel(trim_pieces, 2);
}

} // verus!
