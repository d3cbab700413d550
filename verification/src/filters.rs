//! Text made fit for display in a page.

use vstd::prelude::*;
use vstd::std_specs::iter::IteratorSpec;
use vstd::string::*;

verus! {

/// Appends a character to a string.
///
/// Trusted: `String::push` of the standard library, which appends the
/// character and leaves the rest of the string as it was.
pub assume_specification[ String::push ](text: &mut String, c: char)
    ensures
        final(text)@ == old(text)@.push(c),
;

/// What stands for one character in a page: the characters that a page
/// would take as markup or would not show are replaced, every other
/// character stands for itself.
pub open spec fn html_of(c: char) -> Seq<char> {
    if c == ' ' {
        "&nbsp;"@
    } else if c == '\n' {
        "<br/>"@
    } else if c == '<' {
        "&lt;"@
    } else if c == '>' {
        "&gt;"@
    } else if c == '&' {
        "&amp;"@
    } else if c == '"' {
        "&quot;"@
    } else if c == '\'' {
        "&#39;"@
    } else if c == '\t' {
        "&nbsp;&nbsp;&nbsp;&nbsp;"@
    } else {
        seq![c]
    }
}

/// What stands for a text in a page: what stands for each of its
/// characters, in their order.
pub open spec fn html_text(input: Seq<char>) -> Seq<char>
    decreases input.len(),
{
    if input.len() == 0 {
        Seq::empty()
    } else {
        html_text(input.drop_last()) + html_of(input.last())
    }
}

/// Changes text so that it can be shown in a page.
pub fn text_for_html(input: &str) -> (result: String)
    ensures
        result@ == html_text(input@),
{
    let mut result = String::new();
    let mut rest = input.chars();
    let ghost mut done: Seq<char> = Seq::empty();
    proof {
        broadcast use vstd::string::group_string_axioms;
        assert(input@ =~= done + rest.remaining());
    }
    loop
        invariant
            input@ == done + rest.remaining(),
            result@ == html_text(done),
            rest.decrease() is Some,
        decreases rest.decrease()->0,
    {
        let ghost before = rest.remaining();
        let c = match rest.next() {
            Some(c) => c,
            None => {
                proof {
                    broadcast use vstd::string::group_string_axioms;
                    assert(done =~= input@);
                }
                return result;
            },
        };
        proof {
            broadcast use vstd::string::group_string_axioms;
            assert(before.len() > 0);
            assert(done.push(c).drop_last() =~= done);
            assert(done.push(c) + rest.remaining() =~= done + before);
            done = done.push(c);
        }
        if c == ' ' {
            result.append("&nbsp;");
        } else if c == '\n' {
            result.append("<br/>");
        } else if c == '<' {
            result.append("&lt;");
        } else if c == '>' {
            result.append("&gt;");
        } else if c == '&' {
            result.append("&amp;");
        } else if c == '"' {
            result.append("&quot;");
        } else if c == '\'' {
            result.append("&#39;");
        } else if c == '\t' {
            result.append("&nbsp;&nbsp;&nbsp;&nbsp;");
        } else {
            result.push(c);
            assert(result@ =~= html_text(done.drop_last()) + seq![c]);
        }
    }
}

} // verus!
