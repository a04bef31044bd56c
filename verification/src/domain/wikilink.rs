//! Parsing of `[[wiki-link]]` targets out of note bodies.
//!
//! A link is written `[[Title]]`, referring to another note by its title. The parser is
//! pure text processing; resolving titles to notes is the app layer's job.

use vstd::prelude::*;

use crate::text::{
    chars_of, is_unicode_whitespace, string_from_range, strings_view, trim, trim_bounds, trim_end,
    trim_start,
};

verus! {

/// The first position `k >= from` at which `s` holds `c` twice in a row.
pub open spec fn find_double(s: Seq<char>, c: char, from: int) -> Option<int>
    decreases s.len() - from,
{
    if from < 0 || from + 1 >= s.len() {
        None
    } else if s[from] == c && s[from + 1] == c {
        Some(from)
    } else {
        find_double(s, c, from + 1)
    }
}

/// What [`find_double`] finds: the first doubled `c` at or after `from`.
pub proof fn lemma_find_double(s: Seq<char>, c: char, from: int)
    requires
        0 <= from,
    ensures
        find_double(s, c, from) matches Some(k) ==> from <= k && k + 1 < s.len() && s[k] == c
            && s[k + 1] == c,
        find_double(s, c, from) matches Some(k) ==> forall|j: int|
            from <= j < k ==> !(#[trigger] s[j] == c && s[j + 1] == c),
        find_double(s, c, from) is None ==> forall|j: int|
            from <= j && j + 1 < s.len() ==> !(#[trigger] s[j] == c && s[j + 1] == c),
    decreases s.len() - from,
{
    if from + 1 < s.len() && !(s[from] == c && s[from + 1] == c) {
        lemma_find_double(s, c, from + 1);
    }
}

/// The link targets of `s[from..]`, appended to `found`: each `[[` up to the next `]]`
/// encloses a target, which is trimmed; empty targets and those already found are
/// skipped, and an unterminated `[[` ends the scan.
pub open spec fn gather_links(s: Seq<char>, from: int, found: Seq<Seq<char>>) -> Seq<Seq<char>>
    decreases s.len() - from,
{
    if from < 0 {
        found
    } else {
        match find_double(s, '[', from) {
            None => found,
            Some(start) => match find_double(s, ']', start + 2) {
                None => found,
                Some(end) => {
                    proof {
                        lemma_find_double(s, '[', from);
                        lemma_find_double(s, ']', start + 2);
                    }
                    let target = trim(s.subrange(start + 2, end));
                    let next = if target.len() > 0 && !found.contains(target) {
                        found.push(target)
                    } else {
                        found
                    };
                    gather_links(s, end + 2, next)
                },
            },
        }
    }
}

/// The distinct, trimmed link targets of `text`, in order of first appearance.
pub open spec fn wiki_links(text: Seq<char>) -> Seq<Seq<char>> {
    gather_links(text, 0, Seq::empty())
}

/// A trimmed, non-empty sequence starts and ends with a non-whitespace character.
pub proof fn lemma_trimmed_ends(s: Seq<char>)
    ensures
        trim(s).len() > 0 ==> !is_unicode_whitespace(trim(s)[0]) && !is_unicode_whitespace(
            trim(s).last(),
        ),
{
    lemma_trim_start_first(s);
    lemma_trim_end_prefix(trim_start(s));
}

proof fn lemma_trim_start_first(s: Seq<char>)
    ensures
        trim_start(s).len() > 0 ==> !is_unicode_whitespace(trim_start(s)[0]),
    decreases s.len(),
{
    if s.len() > 0 && is_unicode_whitespace(s[0]) {
        lemma_trim_start_first(s.drop_first());
    }
}

proof fn lemma_trim_end_prefix(s: Seq<char>)
    ensures
        trim_end(s).len() <= s.len(),
        trim_end(s) =~= s.subrange(0, trim_end(s).len() as int),
        trim_end(s).len() > 0 ==> !is_unicode_whitespace(trim_end(s).last()),
    decreases s.len(),
{
    if s.len() > 0 && is_unicode_whitespace(s.last()) {
        lemma_trim_end_prefix(s.drop_last());
    }
}

/// Whether every element of `links` is non-empty, without surrounding whitespace, and
/// different from every other.
pub open spec fn links_are_clean(links: Seq<Seq<char>>) -> bool {
    &&& forall|k: int|
        0 <= k < links.len() ==> (#[trigger] links[k]).len() > 0 && !is_unicode_whitespace(
            links[k][0],
        ) && !is_unicode_whitespace(links[k].last())
    &&& forall|a: int, b: int| 0 <= a < b < links.len() ==> #[trigger] links[a] != #[trigger] links[b]
}

/// Gathering keeps what was found and adds only clean, new targets.
proof fn lemma_gather_clean(s: Seq<char>, from: int, found: Seq<Seq<char>>)
    requires
        links_are_clean(found),
    ensures
        links_are_clean(gather_links(s, from, found)),
        found.len() <= gather_links(s, from, found).len(),
        gather_links(s, from, found).subrange(0, found.len() as int) == found,
    decreases s.len() - from,
{
    if from >= 0 {
        lemma_find_double(s, '[', from);
        if let Some(start) = find_double(s, '[', from) {
            lemma_find_double(s, ']', start + 2);
            if let Some(end) = find_double(s, ']', start + 2) {
                let target = trim(s.subrange(start + 2, end));
                let next = if target.len() > 0 && !found.contains(target) {
                    found.push(target)
                } else {
                    found
                };
                if target.len() > 0 && !found.contains(target) {
                    lemma_trimmed_ends(s.subrange(start + 2, end));
                    assert forall|a: int, b: int| 0 <= a < b < next.len() implies #[trigger] next[a]
                        != #[trigger] next[b] by {
                        if b == found.len() {
                            assert(found[a] == next[a]);
                        }
                    }
                }
                lemma_gather_clean(s, end + 2, next);
                let all = gather_links(s, end + 2, next);
                assert(all.subrange(0, found.len() as int) =~= next.subrange(0, found.len() as int));
                assert(next.subrange(0, found.len() as int) =~= found);
            }
        }
    }
    if gather_links(s, from, found) == found {
        assert(found.subrange(0, found.len() as int) =~= found);
    }
}

/// The extracted links are distinct, non-empty and trimmed.
pub proof fn lemma_wiki_links_clean(text: Seq<char>)
    ensures
        links_are_clean(wiki_links(text)),
{
    lemma_gather_clean(text, 0, Seq::empty());
}

/// The first doubled `c` in `chars` at or after `from`.
fn find_double_at(chars: &Vec<char>, c: char, from: usize) -> (r: Option<usize>)
    requires
        from <= chars@.len(),
    ensures
        match r {
            Some(k) => find_double(chars@, c, from as int) == Some(k as int),
            None => find_double(chars@, c, from as int) is None,
        },
{
    let mut j: usize = from;
    while j < chars.len() && j + 1 < chars.len()
        invariant
            from <= j <= chars@.len(),
            find_double(chars@, c, from as int) == find_double(chars@, c, j as int),
        decreases chars.len() - j,
    {
        if chars[j] == c && chars[j + 1] == c {
            return Some(j);
        }
        j = j + 1;
    }
    None
}

/// Whether `target` is one of `found`.
fn contains_string(found: &Vec<String>, target: &String) -> (r: bool)
    ensures
        r == strings_view(found@).contains(target@),
{
    let mut k: usize = 0;
    while k < found.len()
        invariant
            k <= found@.len(),
            forall|m: int| 0 <= m < k ==> strings_view(found@)[m] != target@,
        decreases found.len() - k,
    {
        if found[k] == *target {
            proof {
                assert(strings_view(found@)[k as int] == target@);
            }
            return true;
        }
        k = k + 1;
    }
    false
}

/// Extracts the distinct, trimmed link targets from `text`, in order of appearance.
///
/// Empty targets and unterminated `[[` are ignored.
pub fn extract_links(text: &str) -> (r: Vec<String>)
    ensures
        strings_view(r@) == wiki_links(text@),
        links_are_clean(strings_view(r@)),
{
    let chars = chars_of(text);
    let n = chars.len();
    let mut links: Vec<String> = Vec::new();
    let mut i: usize = 0;
    proof {
        assert(strings_view(links@) =~= Seq::<Seq<char>>::empty());
    }
    loop
        invariant
            i <= n == chars@.len(),
            chars@ == text@,
            gather_links(chars@, i as int, strings_view(links@)) == wiki_links(text@),
        ensures
            strings_view(links@) == wiki_links(text@),
        decreases n - i,
    {
        let start = match find_double_at(&chars, '[', i) {
            Some(k) => k,
            None => {
                break;
            },
        };
        proof {
            lemma_find_double(chars@, '[', i as int);
        }
        let end = match find_double_at(&chars, ']', start + 2) {
            Some(k) => k,
            None => {
                break;
            },
        };
        proof {
            lemma_find_double(chars@, ']', start + 2);
        }
        let mut inner: Vec<char> = Vec::new();
        let mut p: usize = start + 2;
        while p < end
            invariant
                start + 2 <= p <= end < n == chars@.len(),
                inner@ == chars@.subrange(start + 2, p as int),
            decreases end - p,
        {
            inner.push(chars[p]);
            p = p + 1;
        }
        let (lo, hi) = trim_bounds(&inner);
        let ghost prev = strings_view(links@);
        if lo < hi {
            let target = string_from_range(&inner, lo, hi);
            if !contains_string(&links, &target) {
                links.push(target);
                proof {
                    assert(strings_view(links@) =~= prev.push(target@));
                }
            }
        }
        i = end + 2;
    }
    proof {
        lemma_wiki_links_clean(text@);
    }
    links
}

} // verus!
