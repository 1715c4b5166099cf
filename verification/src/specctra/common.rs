//! The tokens of a Specctra list: the start of a named list, a leaf value, and the
//! end of a list.

use vstd::prelude::*;

use super::read::{ParseError, ParseErrorView};

verus! {

/// One token of a Specctra file.
#[derive(Debug)]
pub enum ListToken {
    /// `(` followed by the list's name.
    Start { name: String },
    /// A value inside a list.
    Leaf { value: String },
    /// `)`.
    End,
}

/// What a token is, with its text as a sequence of characters.
pub enum TokenView {
    Start(Seq<char>),
    Leaf(Seq<char>),
    End,
}

impl View for ListToken {
    type V = TokenView;

    open spec fn view(&self) -> TokenView {
        match self {
            ListToken::Start { name } => TokenView::Start(name@),
            ListToken::Leaf { value } => TokenView::Leaf(value@),
            ListToken::End => TokenView::End,
        }
    }
}

/// `c` with the ASCII capitals `A` to `Z` turned into lower case.
pub open spec fn ascii_lower_char(c: char) -> char {
    if 'A' <= c && c <= 'Z' {
        ((c as u32) + 32) as char
    } else {
        c
    }
}

/// `s` with its ASCII capitals turned into lower case.
pub open spec fn ascii_lower(s: Seq<char>) -> Seq<char> {
    s.map_values(|c: char| ascii_lower_char(c))
}

/// What `expect_start(name)` gives for a token.
pub open spec fn expect_start_spec(token: TokenView, name: Seq<char>) -> Result<(), ParseErrorView> {
    match token {
        TokenView::Start(actual) => if ascii_lower(actual) == name {
            Ok(())
        } else {
            Err(ParseErrorView::ExpectedStartOfList(name))
        },
        _ => Err(ParseErrorView::ExpectedStartOfList(name)),
    }
}

/// What `expect_any_start` gives for a token.
pub open spec fn expect_any_start_spec(token: TokenView) -> Result<Seq<char>, ParseErrorView> {
    match token {
        TokenView::Start(name) => Ok(name),
        _ => Err(ParseErrorView::ExpectedStartOfList(""@)),
    }
}

/// What `expect_leaf` gives for a token.
pub open spec fn expect_leaf_spec(token: TokenView) -> Result<Seq<char>, ParseErrorView> {
    match token {
        TokenView::Leaf(value) => Ok(value),
        _ => Err(ParseErrorView::Expected("leaf value"@)),
    }
}

/// What `expect_end` gives for a token.
pub open spec fn expect_end_spec(token: TokenView) -> Result<(), ParseErrorView> {
    match token {
        TokenView::End => Ok(()),
        _ => Err(ParseErrorView::Expected(")"@)),
    }
}

/// `c` with an ASCII capital turned into lower case.
pub fn lower_char(c: char) -> (r: char)
    ensures
        r == ascii_lower_char(c),
{
    if 'A' <= c && c <= 'Z' {
        let b: u8 = c as u8;
        assert(b == c as u32);
        (b + 32) as char
    } else {
        c
    }
}

/// Whether `actual`, with its ASCII capitals in lower case, is `name`.
pub fn equals_lowered(actual: &String, name: &str) -> (r: bool)
    ensures
        r == (ascii_lower(actual@) == name@),
{
    let a = actual.as_str();
    let len: usize = a.unicode_len();
    if len != name.unicode_len() {
        proof {
            assert(ascii_lower(actual@).len() != name@.len());
        }
        return false;
    }
    let mut i: usize = 0;
    while i < len
        invariant
            len == a@.len(),
            len == name@.len(),
            a@ == actual@,
            i <= len,
            forall|k: int| 0 <= k < i ==> ascii_lower_char(a@[k]) == name@[k],
        decreases len - i,
    {
        if lower_char(a.get_char(i)) != name.get_char(i) {
            proof {
                assert(ascii_lower(actual@)[i as int] != name@[i as int]);
            }
            return false;
        }
        i = i + 1;
    }
    assert(ascii_lower(actual@) =~= name@);
    true
}

impl ListToken {
    /// The start of a list named `name`, in any case of its ASCII letters.
    pub fn expect_start(self, name: &'static str) -> (r: Result<(), ParseError>)
        ensures
            match (r, expect_start_spec(self@, name@)) {
                (Ok(()), Ok(())) => true,
                (Err(e), Err(v)) => e@ == v,
                _ => false,
            },
    {
        match self {
            ListToken::Start { name: actual } => {
                if equals_lowered(&actual, name) {
                    Ok(())
                } else {
                    Err(ParseError::ExpectedStartOfList(name))
                }
            },
            _ => Err(ParseError::ExpectedStartOfList(name)),
        }
    }

    /// The start of a list, whose name is returned.
    pub fn expect_any_start(self) -> (r: Result<String, ParseError>)
        ensures
            match (r, expect_any_start_spec(self@)) {
                (Ok(s), Ok(v)) => s@ == v,
                (Err(e), Err(v)) => e@ == v,
                _ => false,
            },
    {
        match self {
            ListToken::Start { name } => Ok(name),
            _ => Err(ParseError::ExpectedStartOfList("")),
        }
    }

    /// A leaf, whose value is returned.
    pub fn expect_leaf(self) -> (r: Result<String, ParseError>)
        ensures
            match (r, expect_leaf_spec(self@)) {
                (Ok(s), Ok(v)) => s@ == v,
                (Err(e), Err(v)) => e@ == v,
                _ => false,
            },
    {
        match self {
            ListToken::Leaf { value } => Ok(value),
            _ => Err(ParseError::Expected("leaf value")),
        }
    }

    /// The end of a list.
    pub fn expect_end(self) -> (r: Result<(), ParseError>)
        ensures
            match (r, expect_end_spec(self@)) {
                (Ok(()), Ok(())) => true,
                (Err(e), Err(v)) => e@ == v,
                _ => false,
            },
    {
        match self {
            ListToken::End => Ok(()),
            _ => Err(ParseError::Expected(")")),
        }
    }
}

/// Lowering turns each ASCII capital into the small letter 32 code points above it and
/// leaves every other character alone.
pub proof fn lemma_ascii_lower_char(c: char)
    ensures
        'A' <= c <= 'Z' ==> ascii_lower_char(c) as u32 == c as u32 + 32 && 'a' <= ascii_lower_char(
            c,
        ) <= 'z',
        !('A' <= c <= 'Z') ==> ascii_lower_char(c) == c,
{
}

/// The start of a list is accepted under a name with no ASCII capitals exactly when the
/// list's name is that name up to the case of its ASCII letters: each character is the
/// expected one, or the capital whose small letter it is.
pub proof fn lemma_expect_start_ignores_ascii_case(actual: Seq<char>, name: Seq<char>)
    requires
        forall|k: int| 0 <= k < name.len() ==> !('A' <= #[trigger] name[k] <= 'Z'),
    ensures
        expect_start_spec(TokenView::Start(actual), name) is Ok <==> (actual.len() == name.len()
            && forall|k: int|
            0 <= k < actual.len() ==> #[trigger] actual[k] == name[k] || ('A' <= actual[k] <= 'Z'
                && name[k] as u32 == actual[k] as u32 + 32)),
{
    let lowered = ascii_lower(actual);
    let matches = actual.len() == name.len() && forall|k: int|
        0 <= k < actual.len() ==> #[trigger] actual[k] == name[k] || ('A' <= actual[k] <= 'Z'
            && name[k] as u32 == actual[k] as u32 + 32);
    assert forall|k: int| 0 <= k < actual.len() implies #[trigger] lowered[k] == ascii_lower_char(
        actual[k],
    ) by {}
    if matches {
        assert forall|k: int| 0 <= k < actual.len() implies lowered[k] == name[k] by {
            lemma_ascii_lower_char(actual[k]);
            if actual[k] != name[k] {
                assert(lowered[k] as u32 == name[k] as u32);
                vstd::utf8::char_u32_cast(lowered[k], lowered[k] as u32);
                vstd::utf8::char_u32_cast(name[k], name[k] as u32);
            }
        }
        assert(lowered =~= name);
    }
    if lowered == name {
        assert forall|k: int| 0 <= k < actual.len() implies #[trigger] actual[k] == name[k] || (
        'A' <= actual[k] <= 'Z' && name[k] as u32 == actual[k] as u32 + 32) by {
            lemma_ascii_lower_char(actual[k]);
            assert(lowered[k] == name[k]);
            if 'A' <= actual[k] <= 'Z' {
                assert(!('A' <= name[k] <= 'Z'));
            }
        }
    }
}

} // verus!
