//! Text as a sequence of characters: searching, cutting, replacing, and the
//! decimal notation of integers.
//!
//! Every function here is proved against the specification function beside it.
//! What rests on the Unicode tables and the decoder of the standard library is
//! trusted: [`lower`] and [`utf8_lossy`].
use vstd::prelude::*;

verus! {

// ---------------------------------------------------------------------------
// What the standard library decides
// ---------------------------------------------------------------------------
/// The lower case form that the Unicode tables give to a text.
pub uninterp spec fn lowercase(s: Seq<char>) -> Seq<char>;

/// The text that a byte string spells in UTF-8, with U+FFFD for what is not UTF-8.
pub uninterp spec fn lossy_text(bytes: Seq<u8>) -> Seq<char>;

/// All characters of `s` are ASCII.
pub open spec fn is_ascii_text(s: Seq<char>) -> bool {
    forall|i: int| 0 <= i < s.len() ==> (#[trigger] s[i]) as u32 <= 127
}

/// An ASCII character in lower case.
pub open spec fn ascii_lower(c: char) -> char {
    if 'A' <= c && c <= 'Z' {
        ((c as u32) + 32) as char
    } else {
        c
    }
}

/// All bytes of `bytes` are ASCII.
pub open spec fn is_ascii_bytes(bytes: Seq<u8>) -> bool {
    forall|i: int| 0 <= i < bytes.len() ==> (#[trigger] bytes[i]) <= 127
}

/// `str::to_lowercase`: the lower case form of `s`, named [`lowercase`]. Where
/// `s` is ASCII, the letters from A to Z change and nothing else does.
#[verifier::external_body]
pub(crate) fn lower(s: &str) -> (r: String)
    ensures
        r@ == lowercase(s@),
        is_ascii_text(s@) ==> r@ == s@.map_values(|c: char| ascii_lower(c)),
{
    s.to_lowercase()
}

/// `String::from_utf8_lossy`: the text of `bytes`, named [`lossy_text`]. ASCII
/// bytes are the characters with their numbers.
#[verifier::external_body]
pub(crate) fn utf8_lossy(bytes: &[u8]) -> (r: String)
    ensures
        r@ == lossy_text(bytes@),
        is_ascii_bytes(bytes@) ==> r@ == bytes@.map_values(|b: u8| b as char),
{
    String::from_utf8_lossy(bytes).into_owned()
}

/// `String::push`: appends `c` to the text.
pub assume_specification[ String::push ](s: &mut String, c: char)
    ensures
        final(s)@ == old(s)@.push(c),
;

// ---------------------------------------------------------------------------
// Characters and strings
// ---------------------------------------------------------------------------
/// The characters of each string.
pub open spec fn texts(strings: Seq<String>) -> Seq<Seq<char>> {
    strings.map_values(|s: String| s@)
}

/// The characters of each character vector.
pub open spec fn char_seqs(parts: Seq<Vec<char>>) -> Seq<Seq<char>> {
    parts.map_values(|p: Vec<char>| p@)
}

/// The characters of an optional string.
pub open spec fn opt_text(s: Option<String>) -> Option<Seq<char>> {
    match s {
        Some(text) => Some(text@),
        None => None,
    }
}

/// The characters of an optional string slice.
pub open spec fn opt_str(s: Option<&str>) -> Option<Seq<char>> {
    match s {
        Some(text) => Some(text@),
        None => None,
    }
}

pub fn chars_of(s: &str) -> (chars: Vec<char>)
    ensures
        chars@ == s@,
{
    let mut chars: Vec<char> = Vec::new();
    for c in iter: s.chars()
        invariant
            chars@ == s@.take(iter.index()),
            iter.seq() == s@,
    {
        chars.push(c);
    }
    chars
}

pub fn string_of(chars: &[char]) -> (s: String)
    ensures
        s@ == chars@,
{
    let mut s = String::new();
    let mut i: usize = 0;
    while i < chars.len()
        invariant
            i <= chars@.len(),
            s@ == chars@.take(i as int),
        decreases chars@.len() - i,
    {
        s.push(chars[i]);
        i += 1;
    }
    s
}

/// A copy of `chars`.
pub fn copy_chars(chars: &[char]) -> (r: Vec<char>)
    ensures
        r@ == chars@,
{
    let mut r: Vec<char> = Vec::new();
    let mut i: usize = 0;
    while i < chars.len()
        invariant
            i <= chars@.len(),
            r@ == chars@.take(i as int),
        decreases chars@.len() - i,
    {
        r.push(chars[i]);
        i += 1;
    }
    r
}

/// A copy of `strings`.
pub fn copy_strings(strings: &Vec<String>) -> (r: Vec<String>)
    ensures
        texts(r@) == texts(strings@),
        r@ == strings@,
{
    let mut r: Vec<String> = Vec::new();
    let mut i: usize = 0;
    while i < strings.len()
        invariant
            i <= strings@.len(),
            r@ == strings@.take(i as int),
        decreases strings@.len() - i,
    {
        r.push(strings[i].clone());
        i += 1;
    }
    r
}

pub fn same_chars(a: &[char], b: &[char]) -> (r: bool)
    ensures
        r == (a@ == b@),
{
    if a.len() != b.len() {
        return false;
    }
    let mut i: usize = 0;
    while i < a.len()
        invariant
            i <= a@.len(),
            a@.len() == b@.len(),
            forall|j: int| 0 <= j < i ==> a@[j] == b@[j],
        decreases a@.len() - i,
    {
        if a[i] != b[i] {
            return false;
        }
        i += 1;
    }
    assert(a@ =~= b@);
    true
}

/// Whether two texts hold the same characters.
pub fn same_text(a: &str, b: &str) -> (r: bool)
    ensures
        r == (a@ == b@),
{
    same_chars(chars_of(a).as_slice(), chars_of(b).as_slice())
}

/// Whether `list` holds `s`.
pub fn list_has(list: &Vec<String>, s: &str) -> (r: bool)
    ensures
        r == texts(list@).contains(s@),
{
    let mut i: usize = 0;
    while i < list.len()
        invariant
            i <= list@.len(),
            forall|j: int| 0 <= j < i ==> list@[j]@ != s@,
        decreases list@.len() - i,
    {
        if same_text(list[i].as_str(), s) {
            assert(texts(list@)[i as int] == s@);
            return true;
        }
        i += 1;
    }
    assert(forall|j: int| 0 <= j < list@.len() ==> texts(list@)[j] != s@);
    false
}

// ---------------------------------------------------------------------------
// Searching
// ---------------------------------------------------------------------------
/// `pat` stands in `s` at the character index `i`.
pub open spec fn occurs_at(s: Seq<char>, pat: Seq<char>, i: int) -> bool {
    &&& 0 <= i
    &&& i + pat.len() <= s.len()
    &&& s.subrange(i, i + pat.len()) == pat
}

/// `pat` stands somewhere in `s`.
pub open spec fn contains(s: Seq<char>, pat: Seq<char>) -> bool {
    exists|i: int| occurs_at(s, pat, i)
}

/// `i` is the first place where `pat` stands in `s`.
pub open spec fn first_at(s: Seq<char>, pat: Seq<char>, i: int) -> bool {
    &&& occurs_at(s, pat, i)
    &&& forall|j: int| j < i ==> !occurs_at(s, pat, j)
}

/// `i` is the last place where `pat` stands in `s`.
pub open spec fn last_at(s: Seq<char>, pat: Seq<char>, i: int) -> bool {
    &&& occurs_at(s, pat, i)
    &&& forall|j: int| j > i ==> !occurs_at(s, pat, j)
}

/// The first place where `pat` stands in `s`, if it does.
pub open spec fn first_index(s: Seq<char>, pat: Seq<char>) -> Option<int> {
    if contains(s, pat) {
        Some(choose|i: int| first_at(s, pat, i))
    } else {
        None
    }
}

/// The last place where `pat` stands in `s`, if it does.
pub open spec fn last_index(s: Seq<char>, pat: Seq<char>) -> Option<int> {
    if contains(s, pat) {
        Some(choose|i: int| last_at(s, pat, i))
    } else {
        None
    }
}

pub open spec fn starts_with(s: Seq<char>, pat: Seq<char>) -> bool {
    occurs_at(s, pat, 0)
}

pub open spec fn ends_with(s: Seq<char>, pat: Seq<char>) -> bool {
    occurs_at(s, pat, s.len() - pat.len())
}

/// An index found as the first one is the first one.
pub proof fn lemma_first_index(s: Seq<char>, pat: Seq<char>, i: int)
    requires
        first_at(s, pat, i),
    ensures
        first_index(s, pat) == Some(i),
{
    let k = choose|k: int| first_at(s, pat, k);
    assert(first_at(s, pat, k));
    if k < i {
        assert(!occurs_at(s, pat, k));
    } else if i < k {
        assert(!occurs_at(s, pat, i));
    }
}

/// An index found as the last one is the last one.
pub proof fn lemma_last_index(s: Seq<char>, pat: Seq<char>, i: int)
    requires
        last_at(s, pat, i),
    ensures
        last_index(s, pat) == Some(i),
{
    let k = choose|k: int| last_at(s, pat, k);
    assert(last_at(s, pat, k));
    if k > i {
        assert(!occurs_at(s, pat, k));
    } else if i > k {
        assert(!occurs_at(s, pat, i));
    }
}

/// Whether `pat` stands in `s` at `i`.
pub fn is_at(s: &[char], pat: &[char], i: usize) -> (r: bool)
    ensures
        r == occurs_at(s@, pat@, i as int),
{
    if i > s.len() || pat.len() > s.len() - i {
        return false;
    }
    let len: usize = s.len();
    let mut k: usize = 0;
    while k < pat.len()
        invariant
            k <= pat@.len(),
            len == s@.len(),
            i + pat@.len() <= len,
            forall|j: int| 0 <= j < k ==> s@[i + j] == pat@[j],
        decreases pat@.len() - k,
    {
        if s[i + k] != pat[k] {
            assert(s@.subrange(i as int, i + pat@.len())[k as int] != pat@[k as int]);
            return false;
        }
        k += 1;
    }
    assert(s@.subrange(i as int, i + pat@.len()) =~= pat@);
    true
}

/// The first place where `pat` stands in `s`.
pub fn find(s: &[char], pat: &[char]) -> (r: Option<usize>)
    ensures
        match r {
            Some(i) => first_at(s@, pat@, i as int) && first_index(s@, pat@) == Some(i as int),
            None => !contains(s@, pat@) && first_index(s@, pat@) is None,
        },
{
    let mut i: usize = 0;
    loop
        invariant
            i <= s@.len(),
            forall|j: int| j < i ==> !occurs_at(s@, pat@, j),
        decreases s@.len() - i,
    {
        if is_at(s, pat, i) {
            proof {
                lemma_first_index(s@, pat@, i as int);
            }
            return Some(i);
        }
        if i == s.len() {
            assert(forall|j: int| !occurs_at(s@, pat@, j));
            return None;
        }
        i += 1;
    }
}

/// The last place where `pat` stands in `s`.
pub fn rfind(s: &[char], pat: &[char]) -> (r: Option<usize>)
    ensures
        match r {
            Some(i) => last_at(s@, pat@, i as int) && last_index(s@, pat@) == Some(i as int),
            None => !contains(s@, pat@) && last_index(s@, pat@) is None,
        },
{
    let mut i: usize = s.len();
    loop
        invariant
            i <= s@.len(),
            forall|j: int| j > i ==> !occurs_at(s@, pat@, j),
        decreases i,
    {
        if is_at(s, pat, i) {
            proof {
                lemma_last_index(s@, pat@, i as int);
            }
            return Some(i);
        }
        if i == 0 {
            assert(forall|j: int| !occurs_at(s@, pat@, j));
            return None;
        }
        i -= 1;
    }
}

/// Whether `pat` stands in `s`.
pub fn text_contains(s: &str, pat: &str) -> (r: bool)
    ensures
        r == contains(s@, pat@),
{
    match find(chars_of(s).as_slice(), chars_of(pat).as_slice()) {
        Some(i) => true,
        None => false,
    }
}

/// Whether `s` begins with `pat`.
pub fn text_starts_with(s: &str, pat: &str) -> (r: bool)
    ensures
        r == starts_with(s@, pat@),
{
    is_at(chars_of(s).as_slice(), chars_of(pat).as_slice(), 0)
}

/// Whether `s` ends with `pat`.
pub fn text_ends_with(s: &str, pat: &str) -> (r: bool)
    ensures
        r == ends_with(s@, pat@),
{
    let chars = chars_of(s);
    let tail = chars_of(pat);
    if tail.len() > chars.len() {
        return false;
    }
    is_at(chars.as_slice(), tail.as_slice(), chars.len() - tail.len())
}

// ---------------------------------------------------------------------------
// Replacing
// ---------------------------------------------------------------------------
/// `s` with each occurrence of `from`, taken from the left and without
/// overlap, replaced by `to`.
pub open spec fn replaced(s: Seq<char>, from: Seq<char>, to: Seq<char>) -> Seq<char>
    decreases s.len(),
{
    if from.len() == 0 || s.len() < from.len() {
        s
    } else if starts_with(s, from) {
        to + replaced(s.skip(from.len() as int), from, to)
    } else {
        seq![s[0]] + replaced(s.skip(1), from, to)
    }
}

/// Replaces each occurrence of `from`, which is not empty, by `to`.
pub fn replace_chars(s: &[char], from: &[char], to: &[char]) -> (r: Vec<char>)
    requires
        from@.len() > 0,
    ensures
        r@ == replaced(s@, from@, to@),
{
    let mut out: Vec<char> = Vec::new();
    let mut i: usize = 0;
    assert(s@.skip(0) =~= s@);
    while i < s.len() && from.len() <= s.len() - i
        invariant
            i <= s@.len(),
            from@.len() > 0,
            out@ + replaced(s@.skip(i as int), from@, to@) == replaced(s@, from@, to@),
        decreases s@.len() - i,
    {
        let ghost before = out@;
        let ghost rest = s@.skip(i as int);
        if is_at(s, from, i) {
            assert(starts_with(rest, from@)) by {
                assert(rest.subrange(0, from@.len() as int) =~= s@.subrange(
                    i as int,
                    i + from@.len(),
                ));
            }
            let mut k: usize = 0;
            while k < to.len()
                invariant
                    k <= to@.len(),
                    out@ == before + to@.take(k as int),
                decreases to@.len() - k,
            {
                out.push(to[k]);
                k += 1;
            }
            assert(to@.take(to@.len() as int) =~= to@);
            assert(rest.skip(from@.len() as int) =~= s@.skip(i + from@.len()));
            assert(out@ + replaced(s@.skip(i + from@.len()), from@, to@) =~= before + (to@ + replaced(
                s@.skip(i + from@.len()),
                from@,
                to@,
            )));
            i += from.len();
        } else {
            assert(!starts_with(rest, from@)) by {
                assert(rest.subrange(0, from@.len() as int) =~= s@.subrange(
                    i as int,
                    i + from@.len(),
                ));
            }
            out.push(s[i]);
            assert(rest.skip(1) =~= s@.skip(i + 1));
            assert(out@ + replaced(s@.skip(i + 1), from@, to@) =~= before + (seq![s@[i as int]]
                + replaced(s@.skip(i + 1), from@, to@)));
            i += 1;
        }
    }
    let ghost head = out@;
    let ghost start = i as int;
    while i < s.len()
        invariant
            0 <= start <= i <= s@.len(),
            out@ == head + s@.subrange(start, i as int),
        decreases s@.len() - i,
    {
        out.push(s[i]);
        i += 1;
    }
    assert(out@ =~= head + s@.skip(start));
    out
}

/// Replaces each occurrence of `from`, which is not empty, by `to`.
pub fn text_replace(s: &str, from: &str, to: &str) -> (r: String)
    requires
        from@.len() > 0,
    ensures
        r@ == replaced(s@, from@, to@),
{
    string_of(
        replace_chars(
            chars_of(s).as_slice(),
            chars_of(from).as_slice(),
            chars_of(to).as_slice(),
        ).as_slice(),
    )
}

// ---------------------------------------------------------------------------
// Cutting
// ---------------------------------------------------------------------------
/// `c` has the property `White_Space` of Unicode.
pub open spec fn whitespace(c: char) -> bool {
    let code = c as u32;
    ||| 0x9 <= code <= 0xd
    ||| code == 0x20
    ||| code == 0x85
    ||| code == 0xa0
    ||| code == 0x1680
    ||| 0x2000 <= code <= 0x200a
    ||| code == 0x2028
    ||| code == 0x2029
    ||| code == 0x202f
    ||| code == 0x205f
    ||| code == 0x3000
}

/// Whether `c` has the property `White_Space` of Unicode.
pub fn is_space(c: char) -> (r: bool)
    ensures
        r == whitespace(c),
{
    let code: u32 = c as u32;
    if code <= 0xa0 {
        (0x9 <= code && code <= 0xd) || code == 0x20 || code == 0x85 || code == 0xa0
    } else {
        code == 0x1680 || (0x2000 <= code && code <= 0x200a) || code == 0x2028 || code == 0x2029
            || code == 0x202f || code == 0x205f || code == 0x3000
    }
}

/// `s` without its leading white space.
pub open spec fn trimmed_start(s: Seq<char>) -> Seq<char>
    decreases s.len(),
{
    if s.len() > 0 && whitespace(s[0]) {
        trimmed_start(s.skip(1))
    } else {
        s
    }
}

/// `s` without its trailing white space.
pub open spec fn trimmed_end(s: Seq<char>) -> Seq<char>
    decreases s.len(),
{
    if s.len() > 0 && whitespace(s.last()) {
        trimmed_end(s.drop_last())
    } else {
        s
    }
}

/// `s` without its leading and trailing white space.
pub open spec fn trimmed(s: Seq<char>) -> Seq<char> {
    trimmed_end(trimmed_start(s))
}

pub fn trim_start_chars(s: &[char]) -> (r: &[char])
    ensures
        r@ == trimmed_start(s@),
{
    let mut i: usize = 0;
    assert(s@.skip(0) =~= s@);
    while i < s.len() && is_space(s[i])
        invariant
            i <= s@.len(),
            trimmed_start(s@.skip(i as int)) == trimmed_start(s@),
        decreases s@.len() - i,
    {
        assert(s@.skip(i as int).skip(1) =~= s@.skip(i + 1));
        i += 1;
    }
    assert(s@.skip(i as int) =~= s@.subrange(i as int, s@.len() as int));
    &s[i..s.len()]
}

pub fn trim_end_chars(s: &[char]) -> (r: &[char])
    ensures
        r@ == trimmed_end(s@),
{
    let mut i: usize = s.len();
    assert(s@.take(s@.len() as int) =~= s@);
    while i > 0 && is_space(s[i - 1])
        invariant
            i <= s@.len(),
            trimmed_end(s@.take(i as int)) == trimmed_end(s@),
        decreases i,
    {
        assert(s@.take(i as int).drop_last() =~= s@.take(i - 1));
        i -= 1;
    }
    assert(s@.take(i as int) =~= s@.subrange(0, i as int));
    &s[0..i]
}

pub fn trim_chars(s: &[char]) -> (r: &[char])
    ensures
        r@ == trimmed(s@),
{
    trim_end_chars(trim_start_chars(s))
}

/// `s` without leading and trailing white space.
pub fn text_trim(s: &str) -> (r: String)
    ensures
        r@ == trimmed(s@),
{
    string_of(trim_chars(chars_of(s).as_slice()))
}

/// `s` without the byte order marks at its start.
pub open spec fn without_bom(s: Seq<char>) -> Seq<char>
    decreases s.len(),
{
    if s.len() > 0 && s[0] == '\u{feff}' {
        without_bom(s.skip(1))
    } else {
        s
    }
}

/// `s` without the byte order marks at its start.
pub fn strip_bom(s: &str) -> (r: String)
    ensures
        r@ == without_bom(s@),
{
    let chars = chars_of(s);
    let mut i: usize = 0;
    assert(s@.skip(0) =~= s@);
    while i < chars.len() && chars[i] == '\u{feff}'
        invariant
            chars@ == s@,
            i <= s@.len(),
            without_bom(s@.skip(i as int)) == without_bom(s@),
        decreases s@.len() - i,
    {
        assert(s@.skip(i as int).skip(1) =~= s@.skip(i + 1));
        i += 1;
    }
    assert(s@.skip(i as int) =~= s@.subrange(i as int, s@.len() as int));
    string_of(&chars.as_slice()[i..chars.len()])
}

/// The pieces of `s` between the occurrences of `sep`: one more than there are
/// occurrences.
pub open spec fn split_on(s: Seq<char>, sep: char) -> Seq<Seq<char>>
    decreases s.len(),
{
    if s.len() == 0 {
        seq![Seq::empty()]
    } else {
        let before = split_on(s.drop_last(), sep);
        if s.last() == sep {
            before.push(Seq::empty())
        } else {
            before.drop_last().push(before.last().push(s.last()))
        }
    }
}

pub proof fn lemma_split_not_empty(s: Seq<char>, sep: char)
    ensures
        split_on(s, sep).len() > 0,
    decreases s.len(),
{
    if s.len() > 0 {
        lemma_split_not_empty(s.drop_last(), sep);
    }
}

/// The pieces of `s` between the occurrences of `sep`.
pub fn split_chars(s: &[char], sep: char) -> (r: Vec<Vec<char>>)
    ensures
        char_seqs(r@) == split_on(s@, sep),
        r@.len() > 0,
{
    let mut done: Vec<Vec<char>> = Vec::new();
    let mut current: Vec<char> = Vec::new();
    let mut i: usize = 0;
    assert(char_seqs(done@).push(current@) =~= split_on(s@.take(0), sep));
    while i < s.len()
        invariant
            i <= s@.len(),
            char_seqs(done@).push(current@) == split_on(s@.take(i as int), sep),
        decreases s@.len() - i,
    {
        let c = s[i];
        let ghost before = split_on(s@.take(i as int), sep);
        assert(s@.take(i + 1).drop_last() =~= s@.take(i as int));
        assert(before.drop_last() =~= char_seqs(done@));
        assert(before.last() == current@);
        if c == sep {
            let ghost pieces = done@;
            let ghost piece = current@;
            done.push(current);
            current = Vec::new();
            assert(char_seqs(done@) =~= char_seqs(pieces).push(piece));
        } else {
            current.push(c);
        }
        i += 1;
    }
    assert(s@.take(s@.len() as int) =~= s@);
    let ghost pieces = done@;
    let ghost piece = current@;
    done.push(current);
    assert(char_seqs(done@) =~= char_seqs(pieces).push(piece));
    done
}

/// The words of `s` ended by white space so far, and the one not yet ended.
pub open spec fn words_state(s: Seq<char>) -> (Seq<Seq<char>>, Seq<char>)
    decreases s.len(),
{
    if s.len() == 0 {
        (Seq::empty(), Seq::empty())
    } else {
        let (done, word) = words_state(s.drop_last());
        if !whitespace(s.last()) {
            (done, word.push(s.last()))
        } else if word.len() > 0 {
            (done.push(word), Seq::empty())
        } else {
            (done, word)
        }
    }
}

/// The words of `s`: its longest pieces without white space, none of them empty.
pub open spec fn words(s: Seq<char>) -> Seq<Seq<char>> {
    let (done, word) = words_state(s);
    if word.len() > 0 {
        done.push(word)
    } else {
        done
    }
}

/// The words of `s`.
pub fn split_words(s: &[char]) -> (r: Vec<String>)
    ensures
        texts(r@) == words(s@),
{
    let mut done: Vec<String> = Vec::new();
    let mut word: Vec<char> = Vec::new();
    let mut i: usize = 0;
    assert(texts(done@) =~= Seq::<Seq<char>>::empty());
    while i < s.len()
        invariant
            i <= s@.len(),
            (texts(done@), word@) == words_state(s@.take(i as int)),
        decreases s@.len() - i,
    {
        assert(s@.take(i + 1).drop_last() =~= s@.take(i as int));
        if !is_space(s[i]) {
            word.push(s[i]);
        } else if word.len() > 0 {
            let ghost before = done@;
            done.push(string_of(word.as_slice()));
            assert(texts(done@) =~= texts(before).push(word@));
            word = Vec::new();
        }
        i += 1;
    }
    assert(s@.take(s@.len() as int) =~= s@);
    if word.len() > 0 {
        let ghost before = done@;
        done.push(string_of(word.as_slice()));
        assert(texts(done@) =~= texts(before).push(word@));
    }
    done
}

/// The lines of `s` that are ended so far, and the one not yet ended.
pub open spec fn lines_state(s: Seq<char>) -> (Seq<Seq<char>>, Seq<char>)
    decreases s.len(),
{
    if s.len() == 0 {
        (Seq::empty(), Seq::empty())
    } else {
        let (done, line) = lines_state(s.drop_last());
        if s.last() != '\n' {
            (done, line.push(s.last()))
        } else if line.len() > 0 && line.last() == '\r' {
            (done.push(line.drop_last()), Seq::empty())
        } else {
            (done.push(line), Seq::empty())
        }
    }
}

/// The lines of `s`: each ends at a line feed, or at a carriage return and a
/// line feed, which do not belong to it; the last one may lack its ending.
pub open spec fn lines_of(s: Seq<char>) -> Seq<Seq<char>> {
    let (done, line) = lines_state(s);
    if line.len() > 0 {
        done.push(line)
    } else {
        done
    }
}

/// The lines of `s`.
pub fn split_lines(s: &[char]) -> (r: Vec<Vec<char>>)
    ensures
        char_seqs(r@) == lines_of(s@),
{
    let mut done: Vec<Vec<char>> = Vec::new();
    let mut line: Vec<char> = Vec::new();
    let mut i: usize = 0;
    assert(char_seqs(done@) =~= Seq::<Seq<char>>::empty());
    while i < s.len()
        invariant
            i <= s@.len(),
            (char_seqs(done@), line@) == lines_state(s@.take(i as int)),
        decreases s@.len() - i,
    {
        assert(s@.take(i + 1).drop_last() =~= s@.take(i as int));
        if s[i] != '\n' {
            line.push(s[i]);
        } else {
            if line.len() > 0 && line[line.len() - 1] == '\r' {
                let ghost whole = line@;
                line.pop();
                assert(line@ =~= whole.drop_last());
            }
            let ghost before = done@;
            let ghost ended = line@;
            done.push(line);
            assert(char_seqs(done@) =~= char_seqs(before).push(ended));
            line = Vec::new();
        }
        i += 1;
    }
    assert(s@.take(s@.len() as int) =~= s@);
    if line.len() > 0 {
        let ghost before = done@;
        let ghost ended = line@;
        done.push(line);
        assert(char_seqs(done@) =~= char_seqs(before).push(ended));
    }
    done
}

/// `parts` put together with `sep` between them.
pub open spec fn joined(parts: Seq<Seq<char>>, sep: Seq<char>) -> Seq<char>
    decreases parts.len(),
{
    if parts.len() == 0 {
        Seq::empty()
    } else if parts.len() == 1 {
        parts[0]
    } else {
        joined(parts.drop_last(), sep) + sep + parts.last()
    }
}

/// `parts` put together with `sep` between them.
pub fn join_strings(parts: &[String], sep: &str) -> (r: String)
    ensures
        r@ == joined(texts(parts@), sep@),
{
    let mut out = String::new();
    let mut i: usize = 0;
    while i < parts.len()
        invariant
            i <= parts@.len(),
            out@ == joined(texts(parts@.take(i as int)), sep@),
        decreases parts@.len() - i,
    {
        assert(texts(parts@.take(i + 1)).drop_last() =~= texts(parts@.take(i as int)));
        if i > 0 {
            out.append(sep);
        }
        out.append(parts[i].as_str());
        i += 1;
    }
    assert(parts@.take(parts@.len() as int) =~= parts@);
    out
}

// ---------------------------------------------------------------------------
// Decimal notation
// ---------------------------------------------------------------------------
/// The decimal digit of `d`.
pub open spec fn digit(d: nat) -> char {
    (48 + d % 10) as char
}

/// `n` in decimal notation, without leading zeros.
pub open spec fn decimal(n: nat) -> Seq<char>
    decreases n,
{
    if n < 10 {
        seq![digit(n)]
    } else {
        decimal(n / 10).push(digit(n % 10))
    }
}

/// `i` in decimal notation, with a minus sign where it is negative.
pub open spec fn signed_decimal(i: int) -> Seq<char> {
    if i < 0 {
        seq!['-'] + decimal((-i) as nat)
    } else {
        decimal(i as nat)
    }
}

/// `n` in decimal notation.
pub fn decimal_chars(n: u64) -> (r: Vec<char>)
    ensures
        r@ == decimal(n as nat),
    decreases n,
{
    if n < 10 {
        let mut out: Vec<char> = Vec::new();
        out.push((48 + n as u8) as char);
        assert(out@ =~= decimal(n as nat));
        out
    } else {
        let mut out = decimal_chars(n / 10);
        out.push((48 + (n % 10) as u8) as char);
        out
    }
}

/// `n` in decimal notation.
pub fn decimal_text(n: u64) -> (r: String)
    ensures
        r@ == decimal(n as nat),
{
    string_of(decimal_chars(n).as_slice())
}

/// `i` in decimal notation.
pub fn signed_text(i: i64) -> (r: String)
    ensures
        r@ == signed_decimal(i as int),
{
    if i < 0 {
        let size: u64 = if i == i64::MIN {
            9223372036854775808
        } else {
            (-i) as u64
        };
        let mut out = String::new();
        out.append("-");
        out.append(decimal_text(size).as_str());
        proof {
            reveal_strlit("-");
        }
        assert(out@ =~= signed_decimal(i as int));
        out
    } else {
        decimal_text(i as u64)
    }
}

/// The value of a text of decimal digits.
pub open spec fn digits_value(s: Seq<char>) -> nat
    decreases s.len(),
{
    if s.len() == 0 {
        0
    } else {
        digits_value(s.drop_last()) * 10 + (s.last() as nat - 48) as nat
    }
}

pub open spec fn is_digit(c: char) -> bool {
    '0' <= c && c <= '9'
}

/// `s` without the plus sign that may stand before a number.
pub open spec fn after_plus(s: Seq<char>) -> Seq<char> {
    if s.len() > 0 && s[0] == '+' {
        s.skip(1)
    } else {
        s
    }
}

/// The unsigned integer that `s` spells, where it is at most `max`: an
/// optional plus sign, then one digit or more and nothing else.
pub open spec fn parsed_unsigned(s: Seq<char>, max: nat) -> Option<nat> {
    let digits = after_plus(s);
    if digits.len() > 0 && (forall|i: int| 0 <= i < digits.len() ==> is_digit(digits[i]))
        && digits_value(digits) <= max {
        Some(digits_value(digits))
    } else {
        None
    }
}

proof fn lemma_digits_grow(s: Seq<char>, i: int)
    requires
        0 <= i <= s.len(),
    ensures
        digits_value(s.take(i)) <= digits_value(s),
    decreases s.len() - i,
{
    if i < s.len() {
        lemma_digits_grow(s, i + 1);
        assert(s.take(i + 1).drop_last() =~= s.take(i));
    } else {
        assert(s.take(i) =~= s);
    }
}

/// The unsigned integer that `s` spells, where it is at most `max`.
pub fn parse_unsigned(s: &[char], max: u64) -> (r: Option<u64>)
    ensures
        match r {
            Some(n) => parsed_unsigned(s@, max as nat) == Some(n as nat),
            None => parsed_unsigned(s@, max as nat) is None,
        },
{
    let mut i: usize = 0;
    if s.len() > 0 && s[0] == '+' {
        i = 1;
    }
    let ghost digits = after_plus(s@);
    let start: usize = i;
    if i == s.len() {
        return None;
    }
    let mut value: u64 = 0;
    assert(digits.take(0) =~= Seq::<char>::empty());
    while i < s.len()
        invariant
            start <= i <= s@.len(),
            start <= 1,
            digits == after_plus(s@),
            digits.len() == s@.len() - start,
            forall|j: int| 0 <= j < digits.len() ==> digits[j] == s@[start + j],
            forall|j: int| 0 <= j < i - start ==> is_digit(digits[j]),
            value == digits_value(digits.take(i - start)),
            value <= max,
        decreases s@.len() - i,
    {
        let c = s[i];
        assert(digits[i - start] == c);
        assert(digits.take(i - start + 1).drop_last() =~= digits.take(i - start));
        proof {
            lemma_digits_grow(digits, i - start + 1);
        }
        if !(c >= '0' && c <= '9') {
            return None;
        }
        let d: u64 = (c as u32 - 48) as u64;
        if value > max / 10 || d > max - value * 10 {
            return None;
        }
        value = value * 10 + d;
        i += 1;
    }
    assert(digits.take(digits.len() as int) =~= digits);
    Some(value)
}

// ---------------------------------------------------------------------------
// Pairs of a name and a value
// ---------------------------------------------------------------------------
/// The value of `name` in `pairs`: the last one where it occurs twice.
pub open spec fn last_value(pairs: Seq<(String, String)>, name: Seq<char>) -> Option<Seq<char>>
    decreases pairs.len(),
{
    if pairs.len() == 0 {
        None
    } else if pairs.last().0@ == name {
        Some(pairs.last().1@)
    } else {
        last_value(pairs.drop_last(), name)
    }
}

/// The value of `name` in `pairs`.
pub fn find_last(pairs: &Vec<(String, String)>, name: &str) -> (r: Option<String>)
    ensures
        opt_text(r) == last_value(pairs@, name@),
{
    let mut i: usize = pairs.len();
    assert(pairs@.take(i as int) =~= pairs@);
    while i > 0
        invariant
            i <= pairs@.len(),
            last_value(pairs@.take(i as int), name@) == last_value(pairs@, name@),
        decreases i,
    {
        assert(pairs@.take(i as int).drop_last() =~= pairs@.take(i - 1));
        i -= 1;
        if same_text(pairs[i].0.as_str(), name) {
            return Some(pairs[i].1.clone());
        }
    }
    None
}

// ---------------------------------------------------------------------------
// Laws
// ---------------------------------------------------------------------------
/// Where a text is looked for in another, the place that is found is the first
/// one, and it is found if it is there.
pub proof fn first_place_is_found(s: Seq<char>, pat: Seq<char>)
    ensures
        match first_index(s, pat) {
            Some(i) => {
                &&& 0 <= i <= s.len() - pat.len()
                &&& s.subrange(i, i + pat.len()) == pat
                &&& forall|j: int| 0 <= j < i ==> #[trigger] s.subrange(j, j + pat.len()) != pat
            },
            None => forall|j: int|
                0 <= j <= s.len() - pat.len() ==> #[trigger] s.subrange(j, j + pat.len()) != pat,
        },
{
    if contains(s, pat) {
        let k = choose|k: int| occurs_at(s, pat, k);
        let i = lemma_least_place(s, pat, k);
        lemma_first_index(s, pat, i);
        assert forall|j: int| 0 <= j < i implies #[trigger] s.subrange(j, j + pat.len()) != pat by {
            assert(!occurs_at(s, pat, j));
        }
    } else {
        assert forall|j: int| 0 <= j <= s.len() - pat.len() implies #[trigger] s.subrange(
            j,
            j + pat.len(),
        ) != pat by {
            assert(!occurs_at(s, pat, j));
        }
    }
}

proof fn lemma_least_place(s: Seq<char>, pat: Seq<char>, k: int) -> (i: int)
    requires
        occurs_at(s, pat, k),
    ensures
        first_at(s, pat, i),
    decreases k,
{
    if exists|j: int| 0 <= j < k && occurs_at(s, pat, j) {
        let j = choose|j: int| 0 <= j < k && occurs_at(s, pat, j);
        lemma_least_place(s, pat, j)
    } else {
        k
    }
}

proof fn lemma_greatest_place(s: Seq<char>, pat: Seq<char>, k: int) -> (i: int)
    requires
        occurs_at(s, pat, k),
    ensures
        last_at(s, pat, i),
    decreases s.len() - k,
{
    if exists|j: int| k < j && occurs_at(s, pat, j) {
        let j = choose|j: int| k < j && occurs_at(s, pat, j);
        lemma_greatest_place(s, pat, j)
    } else {
        k
    }
}

/// Where a text is looked for from the end of another, the place that is found
/// is the last one, and it is found if it is there.
pub proof fn last_place_is_found(s: Seq<char>, pat: Seq<char>)
    ensures
        match last_index(s, pat) {
            Some(i) => {
                &&& 0 <= i <= s.len() - pat.len()
                &&& s.subrange(i, i + pat.len()) == pat
                &&& forall|j: int|
                    i < j <= s.len() - pat.len() ==> #[trigger] s.subrange(j, j + pat.len()) != pat
            },
            None => forall|j: int|
                0 <= j <= s.len() - pat.len() ==> #[trigger] s.subrange(j, j + pat.len()) != pat,
        },
{
    if contains(s, pat) {
        let k = choose|k: int| occurs_at(s, pat, k);
        let i = lemma_greatest_place(s, pat, k);
        lemma_last_index(s, pat, i);
        assert forall|j: int| i < j <= s.len() - pat.len() implies #[trigger] s.subrange(
            j,
            j + pat.len(),
        ) != pat by {
            assert(!occurs_at(s, pat, j));
        }
    } else {
        assert forall|j: int| 0 <= j <= s.len() - pat.len() implies #[trigger] s.subrange(
            j,
            j + pat.len(),
        ) != pat by {
            assert(!occurs_at(s, pat, j));
        }
    }
}

/// A text stands in every text that is put together around it, in nothing
/// shorter than itself, at the beginning of what it begins and at the end of
/// what it ends.
pub proof fn texts_stand_in_what_surrounds_them(
    before: Seq<char>,
    pat: Seq<char>,
    after: Seq<char>,
)
    ensures
        contains(before + pat + after, pat),
        starts_with(pat + after, pat),
        ends_with(before + pat, pat),
{
    let all = before + pat + after;
    assert(all.subrange(before.len() as int, (before.len() + pat.len()) as int) =~= pat);
    assert(occurs_at(all, pat, before.len() as int));
    assert((pat + after).subrange(0, pat.len() as int) =~= pat);
    assert((before + pat).subrange(before.len() as int, (before.len() + pat.len()) as int)
        =~= pat);
}

/// What stands in a text parts it into what comes before and what comes behind.
pub proof fn contained_texts_part_the_text(s: Seq<char>, pat: Seq<char>)
    ensures
        contains(s, pat) ==> exists|before: Seq<char>, after: Seq<char>|
            s == #[trigger] (before + pat + after),
        starts_with(s, pat) ==> s == pat + s.skip(pat.len() as int),
        ends_with(s, pat) ==> s == s.take(s.len() - pat.len()) + pat,
{
    if contains(s, pat) {
        let i = choose|i: int| occurs_at(s, pat, i);
        let before = s.take(i);
        let after = s.skip(i + pat.len());
        assert(s.subrange(i, i + pat.len()) == pat);
        assert(s =~= before + s.subrange(i, i + pat.len()) + after);
        assert(s == before + pat + after);
    }
    if starts_with(s, pat) {
        assert(s =~= s.subrange(0, pat.len() as int) + s.skip(pat.len() as int));
    }
    if ends_with(s, pat) {
        assert(s =~= s.take(s.len() - pat.len()) + s.subrange(
            s.len() - pat.len(),
            s.len() as int,
        ));
    }
}

/// Replacing begins with the first place where the text stands and goes on
/// behind it, and leaves alone a text in which it does not stand.
pub proof fn replacing_goes_from_the_left(
    s: Seq<char>,
    from: Seq<char>,
    to: Seq<char>,
    i: int,
)
    requires
        from.len() > 0,
    ensures
        !contains(s, from) ==> replaced(s, from, to) == s,
        first_at(s, from, i) ==> replaced(s, from, to) == s.take(i) + to + replaced(
            s.skip(i + from.len()),
            from,
            to,
        ),
    decreases s.len(),
{
    if s.len() < from.len() {
    } else if starts_with(s, from) {
        if first_at(s, from, i) {
            if i > 0 {
                assert(!occurs_at(s, from, 0));
            }
            assert(s.take(0) + to =~= to);
        }
    } else {
        let rest = s.skip(1);
        replacing_goes_from_the_left(rest, from, to, i - 1);
        if !contains(s, from) {
            assert forall|j: int| !occurs_at(rest, from, j) by {
                if occurs_at(rest, from, j) {
                    assert(s.subrange(j + 1, j + 1 + from.len()) =~= rest.subrange(
                        j,
                        j + from.len(),
                    ));
                    assert(occurs_at(s, from, j + 1));
                }
            }
            assert(!contains(rest, from));
            assert(seq![s[0]] + rest =~= s);
        }
        if first_at(s, from, i) {
            assert(i > 0);
            assert(rest.subrange(i - 1, i - 1 + from.len()) =~= s.subrange(i, i + from.len()));
            assert forall|j: int| j < i - 1 implies !occurs_at(rest, from, j) by {
                if occurs_at(rest, from, j) {
                    assert(s.subrange(j + 1, j + 1 + from.len()) =~= rest.subrange(
                        j,
                        j + from.len(),
                    ));
                    assert(occurs_at(s, from, j + 1));
                }
            }
            assert(rest.skip(i - 1 + from.len()) =~= s.skip(i + from.len()));
            assert(seq![s[0]] + rest.take(i - 1) =~= s.take(i));
            assert(seq![s[0]] + (rest.take(i - 1) + to + replaced(
                s.skip(i + from.len()),
                from,
                to,
            )) =~= s.take(i) + to + replaced(s.skip(i + from.len()), from, to));
        }
    }
}

/// Replacing one character by another changes that character wherever it
/// stands, and no other.
pub proof fn replacing_a_character_changes_it_everywhere(s: Seq<char>, from: char, to: char)
    ensures
        replaced(s, seq![from], seq![to]) == s.map_values(
            |c: char|
                if c == from {
                    to
                } else {
                    c
                },
        ),
    decreases s.len(),
{
    let change = |c: char|
        if c == from {
            to
        } else {
            c
        };
    if s.len() > 0 {
        replacing_a_character_changes_it_everywhere(s.skip(1), from, to);
        assert(s.subrange(0, 1) =~= seq![s[0]]);
        assert(seq![s[0]][0] == s[0]);
        assert(seq![from][0] == from);
        assert(starts_with(s, seq![from]) == (s[0] == from));
        assert(s.map_values(change) =~= seq![change(s[0])] + s.skip(1).map_values(change));
    } else {
        assert(s.map_values(change) =~= s);
    }
}

/// Trimming takes away white space at both ends and nothing else: what is left
/// begins and ends with something else, or is empty.
pub proof fn trimming_takes_white_space_away(s: Seq<char>) -> (at: (int, int))
    ensures
        0 <= at.0 <= at.1 <= s.len(),
        trimmed(s) == s.subrange(at.0, at.1),
        forall|i: int| 0 <= i < at.0 || at.1 <= i < s.len() ==> whitespace(#[trigger] s[i]),
        trimmed(s).len() > 0 ==> !whitespace(trimmed(s)[0]) && !whitespace(trimmed(s).last()),
{
    let i = lemma_trimmed_start(s);
    let rest = s.skip(i);
    let j = lemma_trimmed_end(rest);
    assert(rest.take(j) =~= s.subrange(i, i + j));
    assert forall|k: int| 0 <= k < i || i + j <= k < s.len() implies whitespace(#[trigger] s[k]) by {
        if i + j <= k {
            assert(rest[k - i] == s[k]);
        }
    }
    if j > 0 {
        assert(rest.take(j)[0] == rest[0]);
    }
    (i, i + j)
}

proof fn lemma_trimmed_start(s: Seq<char>) -> (i: int)
    ensures
        0 <= i <= s.len(),
        trimmed_start(s) == s.skip(i),
        forall|k: int| 0 <= k < i ==> whitespace(#[trigger] s[k]),
        i < s.len() ==> !whitespace(s[i]),
    decreases s.len(),
{
    if s.len() > 0 && whitespace(s[0]) {
        let i = lemma_trimmed_start(s.skip(1));
        assert(s.skip(1).skip(i) =~= s.skip(i + 1));
        assert forall|k: int| 0 <= k < i + 1 implies whitespace(#[trigger] s[k]) by {
            if k > 0 {
                assert(s.skip(1)[k - 1] == s[k]);
            }
        }
        i + 1
    } else {
        assert(s.skip(0) =~= s);
        0
    }
}

proof fn lemma_trimmed_end(s: Seq<char>) -> (j: int)
    ensures
        0 <= j <= s.len(),
        trimmed_end(s) == s.take(j),
        forall|k: int| j <= k < s.len() ==> whitespace(#[trigger] s[k]),
        j > 0 ==> !whitespace(s[j - 1]),
    decreases s.len(),
{
    if s.len() > 0 && whitespace(s.last()) {
        let j = lemma_trimmed_end(s.drop_last());
        assert(s.drop_last().take(j) =~= s.take(j));
        assert forall|k: int| j <= k < s.len() implies whitespace(#[trigger] s[k]) by {
            if k < s.len() - 1 {
                assert(s.drop_last()[k] == s[k]);
            }
        }
        j
    } else {
        assert(s.take(s.len() as int) =~= s);
        s.len() as int
    }
}

/// A text without white space at its ends is trimmed already.
pub proof fn trimmed_texts_stay(s: Seq<char>)
    requires
        s.len() > 0 ==> !whitespace(s[0]) && !whitespace(s.last()),
    ensures
        trimmed(s) == s,
{
}

/// White space around a text does not count once it is trimmed.
pub proof fn surrounding_white_space_does_not_count(
    before: Seq<char>,
    s: Seq<char>,
    after: Seq<char>,
)
    requires
        forall|i: int| 0 <= i < before.len() ==> whitespace(#[trigger] before[i]),
        forall|i: int| 0 <= i < after.len() ==> whitespace(#[trigger] after[i]),
        s.len() > 0 ==> !whitespace(s[0]) && !whitespace(s.last()),
    ensures
        trimmed(before + s + after) == s,
    decreases before.len() + after.len(),
{
    let all = before + s + after;
    if s.len() == 0 {
        let at = trimming_takes_white_space_away(all);
        if at.0 < at.1 {
            assert(trimmed(all)[0] == all[at.0]);
        }
        assert(trimmed(all) =~= s);
    } else {
        let at = trimming_takes_white_space_away(all);
        assert(all[before.len() as int] == s[0]);
        assert(all[before.len() + s.len() - 1] == s.last());
        assert(at.0 <= before.len() && before.len() + s.len() <= at.1);
        assert(trimmed(all)[0] == all[at.0]);
        assert(trimmed(all).last() == all[at.1 - 1]);
        assert(at.0 == before.len());
        if at.1 > before.len() + s.len() {
            assert(all[at.1 - 1] == after[at.1 - 1 - before.len() - s.len()]);
        }
        assert(trimmed(all) =~= s);
    }
}

/// All byte order marks at the start of a text are taken away, and nothing else.
pub proof fn byte_order_marks_are_taken_away(s: Seq<char>) -> (i: int)
    ensures
        0 <= i <= s.len(),
        without_bom(s) == s.skip(i),
        forall|k: int| 0 <= k < i ==> #[trigger] s[k] == '\u{feff}',
        i < s.len() ==> s[i] != '\u{feff}',
    decreases s.len(),
{
    if s.len() > 0 && s[0] == '\u{feff}' {
        let i = byte_order_marks_are_taken_away(s.skip(1));
        assert(s.skip(1).skip(i) =~= s.skip(i + 1));
        assert forall|k: int| 0 <= k < i + 1 implies #[trigger] s[k] == '\u{feff}' by {
            if k > 0 {
                assert(s.skip(1)[k - 1] == s[k]);
            }
        }
        i + 1
    } else {
        assert(s.skip(0) =~= s);
        0
    }
}

/// The pieces of a text hold no separator, and with the separator between them
/// they give the text back.
pub proof fn pieces_give_the_text_back(s: Seq<char>, sep: char)
    ensures
        split_on(s, sep).len() > 0,
        joined(split_on(s, sep), seq![sep]) == s,
        forall|i: int|
            0 <= i < split_on(s, sep).len() ==> !(#[trigger] split_on(s, sep)[i]).contains(sep),
    decreases s.len(),
{
    let pieces = split_on(s, sep);
    if s.len() == 0 {
        assert(pieces[0] =~= s);
    } else {
        let rest = s.drop_last();
        let before = split_on(rest, sep);
        pieces_give_the_text_back(rest, sep);
        assert(rest.push(s.last()) =~= s);
        if s.last() == sep {
            assert(pieces.drop_last() =~= before);
            assert(joined(pieces, seq![sep]) =~= s);
        } else {
            let grown = before.last().push(s.last());
            assert(before[before.len() - 1] == before.last());
            assert(!grown.contains(sep)) by {
                if grown.contains(sep) {
                    let j = choose|j: int| 0 <= j < grown.len() && grown[j] == sep;
                    assert(before.last()[j] == sep);
                }
            }
            assert(pieces.drop_last() =~= before.drop_last());
            assert(pieces.last() == grown);
            assert(joined(pieces, seq![sep]) =~= s);
            assert forall|i: int| 0 <= i < pieces.len() implies !(#[trigger] pieces[i]).contains(
                sep,
            ) by {
                if i < pieces.len() - 1 {
                    assert(pieces[i] == before[i]);
                }
            }
        }
    }
}

/// A text that is put together from two around a separator has the pieces of
/// both, and one without a separator is its own only piece.
pub proof fn pieces_follow_each_other(a: Seq<char>, b: Seq<char>, sep: char)
    ensures
        split_on(a + seq![sep] + b, sep) == split_on(a, sep) + split_on(b, sep),
        !a.contains(sep) ==> split_on(a, sep) == seq![a],
    decreases a.len() + b.len(),
{
    lemma_split_not_empty(a, sep);
    lemma_split_not_empty(b, sep);
    let all = a + seq![sep] + b;
    if b.len() == 0 {
        assert(all.drop_last() =~= a);
        assert(b =~= Seq::empty());
        assert(split_on(all, sep) =~= split_on(a, sep) + split_on(b, sep));
    } else {
        let rest = b.drop_last();
        pieces_follow_each_other(a, rest, sep);
        lemma_split_not_empty(rest, sep);
        assert(all.drop_last() =~= a + seq![sep] + rest);
        let left = split_on(a, sep);
        let right = split_on(rest, sep);
        assert((left + right).last() == right.last());
        assert((left + right).drop_last() =~= left + right.drop_last());
        assert(split_on(all, sep) =~= left + split_on(b, sep));
    }
    if !a.contains(sep) {
        lemma_single_piece(a, sep);
    }
}

proof fn lemma_single_piece(s: Seq<char>, sep: char)
    requires
        !s.contains(sep),
    ensures
        split_on(s, sep) == seq![s],
    decreases s.len(),
{
    if s.len() == 0 {
        assert(s =~= Seq::empty());
    } else {
        let rest = s.drop_last();
        assert forall|c: char| #[trigger] rest.contains(c) implies s.contains(c) by {
            let j = choose|j: int| 0 <= j < rest.len() && rest[j] == c;
            assert(s[j] == c);
        }
        lemma_single_piece(rest, sep);
        assert(s.contains(s.last()));
        assert(rest.push(s.last()) =~= s);
        assert(split_on(s, sep) =~= seq![s]);
    }
}

/// Parts are put together in their order, with the separator between each two
/// of them and nowhere else.
pub proof fn parts_are_joined_in_order(a: Seq<Seq<char>>, b: Seq<Seq<char>>, sep: Seq<char>)
    ensures
        a.len() == 1 ==> joined(a, sep) == a[0],
        a.len() > 0 && b.len() > 0 ==> joined(a + b, sep) == joined(a, sep) + sep + joined(b, sep),
        a.len() == 0 ==> joined(a, sep) == Seq::<char>::empty(),
    decreases b.len(),
{
    if a.len() > 0 && b.len() > 0 {
        let all = a + b;
        let rest = b.drop_last();
        assert(all.drop_last() =~= a + rest);
        assert(all.last() == b.last());
        if b.len() == 1 {
            assert(a + rest =~= a);
        } else {
            parts_are_joined_in_order(a, rest, sep);
            assert(joined(all, sep) =~= joined(a, sep) + sep + joined(b, sep));
        }
    }
}

/// White space parts words: a text without it is one word, white space itself is
/// none, and around white space the words of both sides follow each other.
pub proof fn white_space_parts_words(a: Seq<char>, space: char, b: Seq<char>)
    requires
        whitespace(space),
    ensures
        a.len() == 0 ==> words(a) == Seq::<Seq<char>>::empty(),
        a.len() > 0 && (forall|i: int| 0 <= i < a.len() ==> !whitespace(#[trigger] a[i]))
            ==> words(a) == seq![a],
        words(a + seq![space] + b) == words(a) + words(b),
    decreases a.len() + b.len(),
{
    if a.len() > 0 && (forall|i: int| 0 <= i < a.len() ==> !whitespace(#[trigger] a[i])) {
        lemma_one_word(a);
        assert(words(a) =~= seq![a]);
    }
    lemma_words_state(a, space, b);
    assert(words(a + seq![space] + b) =~= words(a) + words(b));
    assert(a.len() == 0 ==> words(a) =~= Seq::empty());
}

proof fn lemma_one_word(s: Seq<char>)
    requires
        forall|i: int| 0 <= i < s.len() ==> !whitespace(#[trigger] s[i]),
    ensures
        words_state(s) == (Seq::<Seq<char>>::empty(), s),
    decreases s.len(),
{
    if s.len() == 0 {
        assert(s =~= Seq::empty());
    } else {
        let rest = s.drop_last();
        assert forall|i: int| 0 <= i < rest.len() implies !whitespace(#[trigger] rest[i]) by {
            assert(rest[i] == s[i]);
        }
        assert(!whitespace(s[s.len() - 1]));
        lemma_one_word(rest);
        assert(rest.push(s.last()) =~= s);
    }
}

proof fn lemma_words_state(a: Seq<char>, space: char, b: Seq<char>)
    requires
        whitespace(space),
    ensures
        words_state(a + seq![space] + b).0 =~= words(a) + words_state(b).0,
        words_state(a + seq![space] + b).1 == words_state(b).1,
    decreases b.len(),
{
    let all = a + seq![space] + b;
    if b.len() == 0 {
        assert(all.drop_last() =~= a);
    } else {
        lemma_words_state(a, space, b.drop_last());
        assert(all.drop_last() =~= a + seq![space] + b.drop_last());
        assert(all.last() == b.last());
    }
}

/// A line feed ends a line, and a carriage return before it does not belong to
/// the line; what follows are the lines of the rest. What no line feed ends is a
/// line too, unless it is empty.
pub proof fn line_feeds_end_lines(line: Seq<char>, rest: Seq<char>)
    requires
        !line.contains('\n'),
    ensures
        lines_of(line) == (if line.len() > 0 {
            seq![line]
        } else {
            Seq::empty()
        }),
        lines_of(line + seq!['\n'] + rest) == (if line.len() > 0 && line.last() == '\r' {
            seq![line.drop_last()]
        } else {
            seq![line]
        }) + lines_of(rest),
{
    lemma_one_line(line);
    lemma_lines_state(line, rest);
    assert(lines_of(line) =~= (if line.len() > 0 {
        seq![line]
    } else {
        Seq::empty()
    }));
    assert(lines_of(line + seq!['\n'] + rest) =~= (if line.len() > 0 && line.last() == '\r' {
        seq![line.drop_last()]
    } else {
        seq![line]
    }) + lines_of(rest));
}

proof fn lemma_one_line(s: Seq<char>)
    requires
        !s.contains('\n'),
    ensures
        lines_state(s) == (Seq::<Seq<char>>::empty(), s),
    decreases s.len(),
{
    if s.len() == 0 {
        assert(s =~= Seq::empty());
    } else {
        let rest = s.drop_last();
        assert forall|c: char| #[trigger] rest.contains(c) implies s.contains(c) by {
            let j = choose|j: int| 0 <= j < rest.len() && rest[j] == c;
            assert(s[j] == c);
        }
        assert(s.contains(s.last()));
        lemma_one_line(rest);
        assert(rest.push(s.last()) =~= s);
    }
}

proof fn lemma_lines_state(line: Seq<char>, rest: Seq<char>)
    requires
        !line.contains('\n'),
    ensures
        lines_state(line + seq!['\n'] + rest).0 =~= (if line.len() > 0 && line.last() == '\r' {
            seq![line.drop_last()]
        } else {
            seq![line]
        }) + lines_state(rest).0,
        lines_state(line + seq!['\n'] + rest).1 == lines_state(rest).1,
    decreases rest.len(),
{
    let all = line + seq!['\n'] + rest;
    if rest.len() == 0 {
        lemma_one_line(line);
        assert(all.drop_last() =~= line);
    } else {
        lemma_lines_state(line, rest.drop_last());
        assert(all.drop_last() =~= line + seq!['\n'] + rest.drop_last());
        assert(all.last() == rest.last());
    }
}

/// A number in decimal notation has digits only, the first of which is zero for
/// zero alone, and the number is read back from it, with a plus sign before it
/// too, where it is not beyond the bound.
pub proof fn numbers_are_read_back(n: nat, max: nat)
    ensures
        decimal(n).len() > 0,
        forall|i: int| 0 <= i < decimal(n).len() ==> '0' <= #[trigger] decimal(n)[i] <= '9',
        decimal(n)[0] == '0' ==> n == 0,
        n < 10 ==> decimal(n).len() == 1 && decimal(n)[0] as nat == 48 + n,
        n >= 10 ==> decimal(n).drop_last() == decimal(n / 10) && decimal(n).last() as nat == 48 + n
            % 10,
        parsed_unsigned(decimal(n), max) == (if n <= max {
            Some(n)
        } else {
            None
        }),
        parsed_unsigned(seq!['+'] + decimal(n), max) == parsed_unsigned(decimal(n), max),
    decreases n,
{
    lemma_decimal(n);
    let s = decimal(n);
    assert(s[0] != '+');
    assert(after_plus(s) == s);
    assert((seq!['+'] + s).skip(1) =~= s);
    assert(forall|i: int| 0 <= i < s.len() ==> is_digit(s[i]));
}

proof fn lemma_decimal(n: nat)
    ensures
        decimal(n).len() > 0,
        forall|i: int| 0 <= i < decimal(n).len() ==> '0' <= #[trigger] decimal(n)[i] <= '9',
        decimal(n)[0] == '0' ==> n == 0,
        n < 10 ==> decimal(n).len() == 1 && decimal(n)[0] as nat == 48 + n,
        n >= 10 ==> decimal(n).drop_last() == decimal(n / 10) && decimal(n).last() as nat == 48 + n
            % 10,
        digits_value(decimal(n)) == n,
    decreases n,
{
    if n < 10 {
        assert(decimal(n).drop_last() =~= Seq::<char>::empty());
        assert(digits_value(decimal(n).drop_last()) == 0);
    } else {
        lemma_decimal(n / 10);
        let before = decimal(n / 10);
        assert(decimal(n).drop_last() =~= before);
        assert forall|i: int| 0 <= i < decimal(n).len() implies '0' <= #[trigger] decimal(n)[i]
            <= '9' by {
            if i < before.len() {
                assert(decimal(n)[i] == before[i]);
            }
        }
        assert(decimal(n)[0] == before[0]);
    }
}

/// What is read as a number is made of digits, behind a plus sign at most: each
/// counts ten times what the next one counts, and anything else is no number.
pub proof fn numbers_are_made_of_digits(s: Seq<char>, max: nat)
    ensures
        parsed_unsigned(s, max) matches Some(n) ==> n <= max && s.len() > 0,
        parsed_unsigned(s, max) is Some ==> forall|i: int|
            0 <= i < s.len() ==> ('0' <= #[trigger] s[i] <= '9') || (i == 0 && s[i] == '+'),
        s.len() == 1 && '0' <= s[0] <= '9' && s[0] as nat - 48 <= max ==> parsed_unsigned(s, max)
            == Some((s[0] as nat - 48) as nat),
        s.len() > 1 && '0' <= s.last() <= '9' ==> match parsed_unsigned(s.drop_last(), max) {
            Some(n) => n * 10 + (s.last() as nat - 48) <= max ==> parsed_unsigned(s, max) == Some(
                (n * 10 + (s.last() as nat - 48)) as nat,
            ),
            None => true,
        },
{
    let digits = after_plus(s);
    if parsed_unsigned(s, max) is Some {
        assert forall|i: int| 0 <= i < s.len() implies ('0' <= #[trigger] s[i] <= '9') || (i == 0
            && s[i] == '+') by {
            if s[0] == '+' {
                if i > 0 {
                    assert(digits[i - 1] == s[i]);
                    assert(is_digit(digits[i - 1]));
                }
            } else {
                assert(is_digit(digits[i]));
            }
        }
    }
    if s.len() == 1 && '0' <= s[0] <= '9' {
        assert(digits == s);
        assert(s.drop_last() =~= Seq::<char>::empty());
        assert(digits_value(s.drop_last()) == 0);
        assert(is_digit(digits[0]));
    }
    if s.len() > 1 && '0' <= s.last() <= '9' {
        let rest = after_plus(s.drop_last());
        if parsed_unsigned(s.drop_last(), max) is Some {
            assert(digits.drop_last() =~= rest);
            assert(digits.last() == s.last());
            assert forall|i: int| 0 <= i < digits.len() implies is_digit(digits[i]) by {
                if i < digits.len() - 1 {
                    assert(digits[i] == rest[i]);
                    assert(is_digit(rest[i]));
                }
            }
        }
    }
}

/// Of several values for one name the last one counts.
pub proof fn the_last_value_counts(pairs: Seq<(String, String)>, name: Seq<char>)
    ensures
        match last_value(pairs, name) {
            Some(value) => exists|i: int|
                0 <= i < pairs.len() && (#[trigger] pairs[i]).0@ == name && pairs[i].1@ == value && (
                forall|j: int| i < j < pairs.len() ==> (#[trigger] pairs[j]).0@ != name),
            None => forall|j: int| 0 <= j < pairs.len() ==> (#[trigger] pairs[j]).0@ != name,
        },
    decreases pairs.len(),
{
    if pairs.len() > 0 {
        if pairs.last().0@ == name {
            assert(pairs[pairs.len() - 1].0@ == name);
        } else {
            let rest = pairs.drop_last();
            the_last_value_counts(rest, name);
            match last_value(rest, name) {
                Some(value) => {
                    let i = choose|i: int|
                        0 <= i < rest.len() && (#[trigger] rest[i]).0@ == name && rest[i].1@ == value
                            && (forall|j: int|
                            i < j < rest.len() ==> (#[trigger] rest[j]).0@ != name);
                    assert(pairs[i] == rest[i]);
                    assert forall|j: int| i < j < pairs.len() implies (#[trigger] pairs[j]).0@
                        != name by {
                        if j < rest.len() {
                            assert(rest[j] == pairs[j]);
                        }
                    }
                },
                None => {
                    assert forall|j: int| 0 <= j < pairs.len() implies (#[trigger] pairs[j]).0@
                        != name by {
                        if j < rest.len() {
                            assert(rest[j] == pairs[j]);
                        }
                    }
                },
            }
        }
    }
}

} // verus!
