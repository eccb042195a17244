//! The name of the branch that a repository is on, read from the text of
//! its `HEAD` file.

use vstd::prelude::*;
use vstd::string::*;
use crate::color::push_char;
use crate::text::{is_whitespace, whitespace};

verus! {

/// The number of white space characters at the front of a text.
pub open spec fn leading_space(s: Seq<char>) -> int
    decreases s.len(),
{
    if s.len() > 0 && whitespace(s[0]) {
        1 + leading_space(s.drop_first())
    } else {
        0
    }
}

/// The number of white space characters at the end of a text.
pub open spec fn trailing_space(s: Seq<char>) -> int
    decreases s.len(),
{
    if s.len() > 0 && whitespace(s.last()) {
        1 + trailing_space(s.drop_last())
    } else {
        0
    }
}

/// A text without the white space at its front and at its end.
pub open spec fn trimmed_text(s: Seq<char>) -> Seq<char> {
    let from = leading_space(s);
    let rest = s.subrange(from, s.len() as int);
    rest.subrange(0, rest.len() - trailing_space(rest))
}

/// The place after the last `/` of a text; zero where it has none.
pub open spec fn after_last_slash(s: Seq<char>) -> int
    decreases s.len(),
{
    if s.len() == 0 {
        0
    } else if s.last() == '/' {
        s.len() as int
    } else {
        after_last_slash(s.drop_last())
    }
}

/// The branch that the text of a `HEAD` file names, white space around it
/// aside: the last part of the path after `ref: `; for a detached head the
/// first seven characters of the commit, or all of a shorter one; none for
/// an empty file.
pub open spec fn head_branch(head: Seq<char>) -> Option<Seq<char>> {
    let h = trimmed_text(head);
    let prefix = "ref: "@;
    if h.len() >= prefix.len() && h.subrange(0, prefix.len() as int) == prefix {
        let reference = h.subrange(prefix.len() as int, h.len() as int);
        Some(reference.subrange(after_last_slash(reference), reference.len() as int))
    } else if h.len() >= 7 {
        Some(h.subrange(0, 7))
    } else if h.len() > 0 {
        Some(h)
    } else {
        None
    }
}

proof fn lemma_leading_space(s: Seq<char>, k: int)
    requires
        0 <= k <= s.len(),
        forall|i: int| 0 <= i < k ==> whitespace(#[trigger] s[i]),
        k < s.len() ==> !whitespace(s[k]),
    ensures
        leading_space(s) == k,
    decreases k,
{
    if k > 0 {
        let t = s.drop_first();
        assert forall|i: int| 0 <= i < k - 1 implies whitespace(#[trigger] t[i]) by {
            assert(t[i] == s[i + 1]);
        }
        lemma_leading_space(t, k - 1);
    }
}

proof fn lemma_trailing_space(s: Seq<char>, k: int)
    requires
        0 <= k <= s.len(),
        forall|i: int| s.len() - k <= i < s.len() ==> whitespace(#[trigger] s[i]),
        k < s.len() ==> !whitespace(s[s.len() - k - 1]),
    ensures
        trailing_space(s) == k,
    decreases k,
{
    if k > 0 {
        let t = s.drop_last();
        lemma_trailing_space(t, k - 1);
    }
}

fn chars_of(text: &str) -> (v: Vec<char>)
    ensures
        v@ == text@,
{
    let n = text.unicode_len();
    let mut v: Vec<char> = Vec::new();
    let mut i: usize = 0;
    while i < n
        invariant
            i <= n,
            n == text@.len(),
            v@ == text@.take(i as int),
        decreases n - i,
    {
        v.push(text.get_char(i));
        assert(v@ =~= text@.take(i + 1));
        i += 1;
    }
    assert(text@.take(i as int) =~= text@);
    v
}

fn text_of(chars: &Vec<char>, from: usize, to: usize) -> (s: String)
    requires
        from <= to <= chars@.len(),
    ensures
        s@ == chars@.subrange(from as int, to as int),
{
    let mut s = String::new();
    let mut i: usize = from;
    while i < to
        invariant
            from <= i <= to,
            to <= chars@.len(),
            s@ == chars@.subrange(from as int, i as int),
        decreases to - i,
    {
        push_char(&mut s, chars[i]);
        assert(s@ =~= chars@.subrange(from as int, i + 1));
        i += 1;
    }
    s
}

/// Reads the branch from the text of a `HEAD` file.
pub fn branch_from_head(head: &str) -> (branch: Option<String>)
    ensures
        match branch {
            Some(b) => head_branch(head@) == Some(b@),
            None => head_branch(head@) is None,
        },
{
    let chars = chars_of(head);
    let n = chars.len();
    let mut from: usize = 0;
    while from < n && is_whitespace(chars[from])
        invariant
            from <= n,
            n == chars@.len(),
            forall|i: int| 0 <= i < from ==> whitespace(#[trigger] chars@[i]),
        decreases n - from,
    {
        from += 1;
    }
    let mut to: usize = n;
    while to > from && is_whitespace(chars[to - 1])
        invariant
            from <= to <= n,
            n == chars@.len(),
            forall|i: int| to <= i < n ==> whitespace(#[trigger] chars@[i]),
        decreases to,
    {
        to -= 1;
    }
    let ghost h = chars@.subrange(from as int, to as int);
    proof {
        lemma_leading_space(chars@, from as int);
        let rest = chars@.subrange(from as int, n as int);
        assert forall|i: int| rest.len() - (n - to) <= i < rest.len() implies whitespace(
            #[trigger] rest[i],
        ) by {
            assert(rest[i] == chars@[from + i]);
        }
        if n - to < rest.len() {
            assert(rest[rest.len() - (n - to) - 1] == chars@[to - 1]);
        }
        lemma_trailing_space(rest, (n - to) as int);
        assert(trimmed_text(head@) =~= h);
        reveal_strlit("ref: ");
    }
    let len = to - from;
    if len >= 5 && chars[from] == 'r' && chars[from + 1] == 'e' && chars[from + 2] == 'f' && chars[from
        + 3] == ':' && chars[from + 4] == ' ' {
        let start = from + 5;
        let mut cut: usize = to;
        while cut > start && chars[cut - 1] != '/'
            invariant
                start <= cut <= to,
                to <= chars@.len(),
                after_last_slash(chars@.subrange(start as int, to as int)) == after_last_slash(
                    chars@.subrange(start as int, cut as int),
                ),
            decreases cut,
        {
            assert(chars@.subrange(start as int, cut as int).drop_last() =~= chars@.subrange(
                start as int,
                cut - 1,
            ));
            cut -= 1;
        }
        proof {
            let reference = chars@.subrange(start as int, to as int);
            let head_part = chars@.subrange(start as int, cut as int);
            assert(h.subrange(0, 5) =~= "ref: "@);
            assert(h.subrange(5, h.len() as int) =~= reference);
            assert(after_last_slash(head_part) == cut - start);
            assert(reference.subrange(cut - start, reference.len() as int) =~= chars@.subrange(
                cut as int,
                to as int,
            ));
        }
        return Some(text_of(&chars, cut, to));
    }
    proof {
        if h.len() >= 5 && h.subrange(0, 5) == "ref: "@ {
            assert(h.subrange(0, 5)[0] == h[0] && h.subrange(0, 5)[1] == h[1] && h.subrange(0, 5)[2]
                == h[2] && h.subrange(0, 5)[3] == h[3] && h.subrange(0, 5)[4] == h[4]);
            assert(h[0] == chars@[from + 0] && h[1] == chars@[from + 1] && h[2] == chars@[from + 2]
                && h[3] == chars@[from + 3] && h[4] == chars@[from + 4]);
        }
    }
    if len >= 7 {
        proof {
            assert(h.subrange(0, 7) =~= chars@.subrange(from as int, from + 7));
        }
        Some(text_of(&chars, from, from + 7))
    } else if len > 0 {
        Some(text_of(&chars, from, to))
    } else {
        None
    }
}

} // verus!
