use vstd::prelude::*;

verus! {

/// The Unicode `White_Space` characters: the set that `str::trim` and
/// `str::split_whitespace` treat as whitespace.
pub open spec fn is_ws_char(c: char) -> bool {
    ||| c == '\u{09}'
    ||| c == '\u{0a}'
    ||| c == '\u{0b}'
    ||| c == '\u{0c}'
    ||| c == '\u{0d}'
    ||| c == ' '
    ||| c == '\u{85}'
    ||| c == '\u{a0}'
    ||| c == '\u{1680}'
    ||| ('\u{2000}' <= c && c <= '\u{200a}')
    ||| c == '\u{2028}'
    ||| c == '\u{2029}'
    ||| c == '\u{202f}'
    ||| c == '\u{205f}'
    ||| c == '\u{3000}'
}

/// Decides whether a character is whitespace, in the sense of `is_ws_char`.
pub fn is_whitespace_char(c: char) -> (r: bool)
    ensures
        r == is_ws_char(c),
{
    c == '\u{09}' || c == '\u{0a}' || c == '\u{0b}' || c == '\u{0c}' || c == '\u{0d}' || c == ' '
        || c == '\u{85}' || c == '\u{a0}' || c == '\u{1680}' || ('\u{2000}' <= c && c
        <= '\u{200a}') || c == '\u{2028}' || c == '\u{2029}' || c == '\u{202f}' || c == '\u{205f}'
        || c == '\u{3000}'
}

/// The position of the first occurrence of `c` in `s`, if there is one.
pub open spec fn find_char(s: Seq<char>, c: char) -> Option<int>
    decreases s.len(),
{
    if s.len() == 0 {
        None
    } else if s[0] == c {
        Some(0 as int)
    } else {
        match find_char(s.drop_first(), c) {
            Some(i) => Some(i + 1),
            None => None,
        }
    }
}

/// `find_char` returns exactly the first position that holds `c`.
pub proof fn lemma_find_char_at(s: Seq<char>, c: char, i: int)
    requires
        0 <= i < s.len(),
        s[i] == c,
        forall|j: int| 0 <= j < i ==> s[j] != c,
    ensures
        find_char(s, c) == Some(i),
    decreases i,
{
    if i > 0 {
        lemma_find_char_at(s.drop_first(), c, i - 1);
    }
}

/// When no position of `s` holds `c`, `find_char` reports that.
pub proof fn lemma_find_char_absent(s: Seq<char>, c: char)
    requires
        forall|j: int| 0 <= j < s.len() ==> s[j] != c,
    ensures
        find_char(s, c) is None,
    decreases s.len(),
{
    if s.len() > 0 {
        lemma_find_char_absent(s.drop_first(), c);
    }
}

/// `find_char` succeeds exactly on the sequences that contain `c`, and the
/// position it returns holds `c` and is the first that does.
pub proof fn lemma_find_char_characterizes(s: Seq<char>, c: char)
    ensures
        (find_char(s, c) is Some) <==> (exists|i: int| 0 <= i < s.len() && s[i] == c),
        find_char(s, c) matches Some(i) ==> 0 <= i < s.len() && s[i] == c && (forall|j: int|
            0 <= j < i ==> s[j] != c),
    decreases s.len(),
{
    if s.len() > 0 && s[0] != c {
        lemma_find_char_characterizes(s.drop_first(), c);
        if find_char(s.drop_first(), c) is Some {
            let i = find_char(s.drop_first(), c)->Some_0;
            assert(s[i + 1] == s.drop_first()[i]);
            assert forall|j: int| 0 <= j < i + 1 implies s[j] != c by {
                if j > 0 {
                    assert(s[j] == s.drop_first()[j - 1]);
                }
            }
        } else {
            assert forall|i: int| 0 <= i < s.len() implies s[i] != c by {
                if i > 0 {
                    assert(s[i] == s.drop_first()[i - 1]);
                }
            }
        }
    }
}

/// The suffix of `s` that remains after the leading whitespace.
pub open spec fn trim_front(s: Seq<char>) -> Seq<char>
    decreases s.len(),
{
    if s.len() > 0 && is_ws_char(s[0]) {
        trim_front(s.drop_first())
    } else {
        s
    }
}

/// The prefix of `s` that remains after the trailing whitespace.
pub open spec fn trim_back(s: Seq<char>) -> Seq<char>
    decreases s.len(),
{
    if s.len() > 0 && is_ws_char(s.last()) {
        trim_back(s.drop_last())
    } else {
        s
    }
}

/// `s` with both leading and trailing whitespace removed, as `str::trim`
/// leaves it.
pub open spec fn trim_spec(s: Seq<char>) -> Seq<char> {
    trim_back(trim_front(s))
}

/// `trim_front` keeps exactly the part after the first non-whitespace
/// character.
proof fn lemma_trim_front_is_suffix(s: Seq<char>, b: int)
    requires
        0 <= b <= s.len(),
        forall|j: int| 0 <= j < b ==> is_ws_char(s[j]),
        b < s.len() ==> !is_ws_char(s[b]),
    ensures
        trim_front(s) =~= s.subrange(b, s.len() as int),
    decreases b,
{
    if b > 0 {
        lemma_trim_front_is_suffix(s.drop_first(), b - 1);
        assert(s.drop_first().subrange(b - 1, s.drop_first().len() as int) =~= s.subrange(
            b,
            s.len() as int,
        ));
    }
}

/// `trim_back` keeps exactly the part before the last non-whitespace
/// character.
proof fn lemma_trim_back_is_prefix(s: Seq<char>, e: int)
    requires
        0 <= e <= s.len(),
        forall|j: int| e <= j < s.len() ==> is_ws_char(s[j]),
        e > 0 ==> !is_ws_char(s[e - 1]),
    ensures
        trim_back(s) =~= s.subrange(0, e),
    decreases s.len() - e,
{
    if e < s.len() {
        lemma_trim_back_is_prefix(s.drop_last(), e);
        assert(s.drop_last().subrange(0, e) =~= s.subrange(0, e));
    }
}

/// The result of `trim_spec` carries no whitespace at either end.
pub proof fn lemma_trim_spec_trimmed(s: Seq<char>)
    ensures
        trim_spec(s).len() > 0 ==> !is_ws_char(trim_spec(s)[0]),
        trim_spec(s).len() > 0 ==> !is_ws_char(trim_spec(s).last()),
{
    lemma_trim_front_head(s);
    lemma_trim_back_keeps_head(trim_front(s));
    lemma_trim_back_last(trim_front(s));
}

/// The first character left by `trim_front` is not whitespace.
proof fn lemma_trim_front_head(s: Seq<char>)
    ensures
        trim_front(s).len() > 0 ==> !is_ws_char(trim_front(s)[0]),
    decreases s.len(),
{
    if s.len() > 0 && is_ws_char(s[0]) {
        lemma_trim_front_head(s.drop_first());
    }
}

/// The last character left by `trim_back` is not whitespace.
proof fn lemma_trim_back_last(s: Seq<char>)
    ensures
        trim_back(s).len() > 0 ==> !is_ws_char(trim_back(s).last()),
    decreases s.len(),
{
    if s.len() > 0 && is_ws_char(s.last()) {
        lemma_trim_back_last(s.drop_last());
    }
}

/// `trim_back` never changes the first character of what it keeps.
proof fn lemma_trim_back_keeps_head(s: Seq<char>)
    ensures
        trim_back(s).len() > 0 ==> trim_back(s)[0] == s[0],
    decreases s.len(),
{
    if s.len() > 0 && is_ws_char(s.last()) {
        lemma_trim_back_keeps_head(s.drop_last());
    }
}

/// Removes leading and trailing whitespace, as `trim_spec` describes.
pub fn trim_str<'a>(s: &'a str) -> (r: &'a str)
    ensures
        r@ == trim_spec(s@),
{
    let n = s.unicode_len();
    let mut b: usize = 0;
    while b < n && is_whitespace_char(s.get_char(b))
        invariant
            0 <= b <= n,
            n == s@.len(),
            forall|j: int| 0 <= j < b ==> is_ws_char(s@[j]),
        decreases n - b,
    {
        b += 1;
    }
    let mut e: usize = n;
    while e > b && is_whitespace_char(s.get_char(e - 1))
        invariant
            b <= e <= n,
            n == s@.len(),
            forall|j: int| 0 <= j < b ==> is_ws_char(s@[j]),
            b < n ==> !is_ws_char(s@[b as int]),
            forall|j: int| e <= j < n ==> is_ws_char(s@[j]),
        decreases e,
    {
        e -= 1;
    }
    proof {
        lemma_trim_front_is_suffix(s@, b as int);
        let t = s@.subrange(b as int, n as int);
        lemma_trim_back_is_prefix(t, e - b);
        assert forall|j: int| (e - b) <= j < t.len() implies is_ws_char(t[j]) by {
            assert(t[j] == s@[j + b]);
        }
        assert(t.subrange(0, e - b) =~= s@.subrange(b as int, e as int));
    }
    s.substring_char(b, e)
}

/// Character-for-character equality of two string slices.
pub fn str_eq(a: &str, b: &str) -> (r: bool)
    ensures
        r == (a@ == b@),
{
    let an = a.unicode_len();
    let bn = b.unicode_len();
    if an != bn {
        return false;
    }
    let mut i: usize = 0;
    while i < an
        invariant
            0 <= i <= an,
            an == a@.len(),
            an == b@.len(),
            forall|j: int| 0 <= j < i ==> a@[j] == b@[j],
        decreases an - i,
    {
        if a.get_char(i) != b.get_char(i) {
            return false;
        }
        i += 1;
    }
    proof {
        assert(a@ =~= b@);
    }
    true
}

/// The position of the first whitespace character of `s` at or after `i`,
/// or the length of `s` if there is none.
pub open spec fn token_end(s: Seq<char>, i: int) -> int
    decreases s.len() - i,
{
    if i < 0 || i >= s.len() {
        s.len() as int
    } else if is_ws_char(s[i]) {
        i
    } else {
        token_end(s, i + 1)
    }
}

/// `token_end` returns exactly the first whitespace position at or after `i`.
pub proof fn lemma_token_end_at(s: Seq<char>, i: int, j: int)
    requires
        0 <= i <= j <= s.len(),
        forall|k: int| i <= k < j ==> !is_ws_char(s[k]),
        j < s.len() ==> is_ws_char(s[j]),
    ensures
        token_end(s, i) == j,
    decreases j - i,
{
    if i < j {
        lemma_token_end_at(s, i + 1, j);
    }
}

/// The whitespace-separated tokens of `s`, starting from position `i`.
pub open spec fn tokens_from(s: Seq<char>, i: int) -> Seq<Seq<char>>
    decreases s.len() - i,
{
    if i < 0 || i >= s.len() {
        Seq::empty()
    } else if is_ws_char(s[i]) {
        tokens_from(s, i + 1)
    } else {
        let e = token_end(s, i + 1);
        if i + 1 <= e <= s.len() {
            seq![s.subrange(i, e)] + tokens_from(s, e)
        } else {
            Seq::empty()
        }
    }
}

/// The whitespace-separated tokens of `s`, as `str::split_whitespace`
/// produces them.
pub open spec fn tokens_spec(s: Seq<char>) -> Seq<Seq<char>> {
    tokens_from(s, 0)
}

/// Splits a string at whitespace into its tokens, dropping the whitespace.
pub fn split_whitespace_str(s: &str) -> (r: Vec<String>)
    ensures
        r.deep_view() == tokens_spec(s@),
{
    let n = s.unicode_len();
    let mut r: Vec<String> = Vec::new();
    let mut i: usize = 0;
    while i < n
        invariant
            0 <= i <= n,
            n == s@.len(),
            r.deep_view() + tokens_from(s@, i as int) =~= tokens_spec(s@),
        decreases n - i,
    {
        if is_whitespace_char(s.get_char(i)) {
            i += 1;
        } else {
            let ghost prev = r.deep_view();
            let mut j: usize = i + 1;
            while j < n && !is_whitespace_char(s.get_char(j))
                invariant
                    i + 1 <= j <= n,
                    n == s@.len(),
                    forall|k: int| i + 1 <= k < j ==> !is_ws_char(s@[k]),
                decreases n - j,
            {
                j += 1;
            }
            proof {
                lemma_token_end_at(s@, i + 1, j as int);
            }
            let tok = s.substring_char(i, j).to_owned();
            r.push(tok);
            proof {
                assert(r.deep_view() =~= prev.push(tok@));
                assert(tokens_from(s@, i as int) =~= seq![s@.subrange(i as int, j as int)]
                    + tokens_from(s@, j as int));
                assert(r.deep_view() + tokens_from(s@, j as int) =~= tokens_spec(s@));
            }
            i = j;
        }
    }
    proof {
        assert(r.deep_view() =~= tokens_spec(s@));
    }
    r
}

/// Splitting a line at its first colon: the trimmed text before the colon
/// and the trimmed text after it, or nothing when the line has no colon.
pub open spec fn kv_split_spec(line: Seq<char>) -> Option<(Seq<char>, Seq<char>)> {
    match find_char(line, ':') {
        Some(i) => Some(
            (trim_spec(line.subrange(0, i)), trim_spec(line.subrange(i + 1, line.len() as int))),
        ),
        None => None,
    }
}

/// Splits a `label: value` line at its first colon and trims both sides; a
/// line without a colon is not a key-value line. Later colons stay in the
/// value, and an empty key or value is a valid, zero-length result.
pub fn kv_split<'a>(line: &'a str) -> (r: Option<(&'a str, &'a str)>)
    ensures
        (r is Some) <==> line@.contains(':'),
        r matches Some(kv) ==> kv_split_spec(line@) == Some((kv.0@, kv.1@)),
        r is None ==> kv_split_spec(line@) is None,
        r matches Some(kv) ==> (kv.0@.len() > 0 ==> !is_ws_char(kv.0@[0]) && !is_ws_char(
            kv.0@.last(),
        )),
        r matches Some(kv) ==> (kv.1@.len() > 0 ==> !is_ws_char(kv.1@[0]) && !is_ws_char(
            kv.1@.last(),
        )),
{
    let n = line.unicode_len();
    let mut i: usize = 0;
    while i < n && line.get_char(i) != ':'
        invariant
            0 <= i <= n,
            n == line@.len(),
            forall|j: int| 0 <= j < i ==> line@[j] != ':',
        decreases n - i,
    {
        i += 1;
    }
    if i == n {
        proof {
            lemma_find_char_absent(line@, ':');
        }
        return None;
    }
    proof {
        lemma_find_char_at(line@, ':', i as int);
        lemma_trim_spec_trimmed(line@.subrange(0, i as int));
        lemma_trim_spec_trimmed(line@.subrange(i + 1, n as int));
    }
    let k = trim_str(line.substring_char(0, i));
    let v = trim_str(line.substring_char(i + 1, n));
    Some((k, v))
}

/// A section-delimiting rule line: it begins with at least four dashes.
pub open spec fn is_rule_line_spec(line: Seq<char>) -> bool {
    line.len() >= 4 && line[0] == '-' && line[1] == '-' && line[2] == '-' && line[3] == '-'
}

/// Decides whether a line is a section-delimiting rule line.
pub fn is_rule_line(line: &str) -> (r: bool)
    ensures
        r == is_rule_line_spec(line@),
{
    let n = line.unicode_len();
    n >= 4 && line.get_char(0) == '-' && line.get_char(1) == '-' && line.get_char(2) == '-'
        && line.get_char(3) == '-'
}

} // verus!
