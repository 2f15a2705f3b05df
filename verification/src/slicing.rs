//! Verified demonstrations of string slices: finding the first word of
//! a string as an index and as a slice of the original string.

use vstd::prelude::*;
use vstd::string::StringExecFns;
use vstd::string::StrSliceExecFns;

verus! {

/// Index (in characters) of the first space in `s`, or the length of
/// `s` if it holds no space. The index alone is only meaningful while
/// the string is unchanged.
pub fn first_word(s: &String) -> (i: usize)
    ensures
        i as int == first_space_index(s@),
        (i as nat) <= s@.len(),
        forall|j: int| 0 <= j < i ==> s@[j] != ' ',
        (i as nat) < s@.len() ==> s@[i as int] == ' ',
{
    let text = s.as_str();
    let n = text.unicode_len();
    let mut i: usize = 0;
    while i < n
        invariant
            i <= n,
            n as nat == s@.len(),
            text@ == s@,
            forall|j: int| 0 <= j < i ==> s@[j] != ' ',
        decreases n - i,
    {
        if text.get_char(i) == ' ' {
            proof {
                lemma_first_space_index(s@, i as int);
            }
            return i;
        }
        i = i + 1;
    }
    proof {
        lemma_first_space_index(s@, i as int);
    }
    i
}

/// Slices of a string: the first and the second word of
/// `"hello world"`, taken by character range.
pub fn slices() -> (r: (String, String))
    ensures
        r.0@ == "hello"@,
        r.1@ == "world"@,
{
    let s = String::from_str("hello world");
    proof {
        reveal_strlit("hello world");
        reveal_strlit("hello");
        reveal_strlit("world");
    }
    let hello = s.as_str().substring_char(0, 5);
    let world = s.as_str().substring_char(6, 11);
    proof {
        assert(hello@ =~= "hello"@);
        assert(world@ =~= "world"@);
    }
    (hello.to_owned(), world.to_owned())
}

/// The first word of `s` as a slice of `s`: everything before the
/// first space, or the whole string if it holds no space.
pub fn first_word2<'a>(s: &'a String) -> (r: &'a str)
    ensures
        ({
            let i = first_space_index(s@);
            r@ == s@.subrange(0, i)
        }),
{
    let text = s.as_str();
    let n = text.unicode_len();
    let mut i: usize = 0;
    while i < n
        invariant
            i <= n,
            n as nat == s@.len(),
            text@ == s@,
            forall|j: int| 0 <= j < i ==> s@[j] != ' ',
        decreases n - i,
    {
        if text.get_char(i) == ' ' {
            proof {
                lemma_first_space_index(s@, i as int);
            }
            return text.substring_char(0, i);
        }
        i = i + 1;
    }
    proof {
        lemma_first_space_index(s@, i as int);
        assert(s@.subrange(0, i as int) =~= s@);
    }
    text.substring_char(0, n)
}

/// The index of the first space character of `chars`, or its length if
/// there is no space.
pub open spec fn first_space_index(chars: Seq<char>) -> int
    decreases chars.len(),
{
    if chars.len() == 0 {
        0
    } else if chars[0] == ' ' {
        0
    } else {
        1 + first_space_index(chars.drop_first())
    }
}

proof fn lemma_first_space_index(chars: Seq<char>, i: int)
    requires
        0 <= i <= chars.len(),
        forall|j: int| 0 <= j < i ==> chars[j] != ' ',
        i < chars.len() ==> chars[i] == ' ',
    ensures
        first_space_index(chars) == i,
    decreases chars.len(),
{
    if chars.len() > 0 {
        if i == 0 {
            if chars.len() > 0 && chars[0] != ' ' {
                assert(i < chars.len() && chars[i] == ' ');
            }
        } else {
            assert(chars[0] != ' ');
            lemma_first_space_index(chars.drop_first(), i - 1);
        }
    }
}

} // verus!
