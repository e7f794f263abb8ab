//! Presentation helpers: avatar URLs, the dark/light style palette,
//! and the small string checks the message feed relies on.

use vstd::prelude::*;
use vstd::string::*;

verus! {

/// Compares two string slices character by character.
pub fn str_eq(a: &str, b: &str) -> (r: bool)
    ensures
        r == (a@ == b@),
{
    let an = a.unicode_len();
    let bn = b.unicode_len();
    if an != bn {
        proof {
            assert(a@ != b@) by {
                assert(a@.len() != b@.len());
            }
        }
        return false;
    }
    let mut k: usize = 0;
    while k < an
        invariant
            an == a@.len(),
            bn == b@.len(),
            an == bn,
            k <= an,
            forall|j: int| 0 <= j < k ==> a@[j] == b@[j],
        decreases an - k,
    {
        if a.get_char(k) != b.get_char(k) {
            return false;
        }
        k = k + 1;
    }
    proof {
        assert(a@ =~= b@);
    }
    true
}

/// The avatar URL derived from a user's display name.
pub open spec fn avatar_url_spec(name: Seq<char>) -> Seq<char> {
    "https://avatars.dicebear.com/api/adventurer-neutral/"@ + name + ".svg"@
}

/// Builds the avatar URL for a display name.
pub fn avatar_url(name: &str) -> (r: String)
    ensures
        r@ == avatar_url_spec(name@),
{
    let mut s = String::from_str("https://avatars.dicebear.com/api/adventurer-neutral/");
    s.append(name);
    s.append(".svg");
    s
}

/// True when the message text names a GIF resource and is rendered
/// as an inline image rather than as text.
pub open spec fn is_gif_spec(text: Seq<char>) -> bool {
    text.len() >= 4 && text.subrange(text.len() - 4, text.len() as int) == ".gif"@
}

/// Decides whether a message body should be shown as an inline GIF.
pub fn is_gif_url(text: &str) -> (r: bool)
    ensures
        r == is_gif_spec(text@),
{
    let n = text.unicode_len();
    if n < 4 {
        return false;
    }
    proof {
        reveal_strlit(".gif");
    }
    let r = text.get_char(n - 4) == '.' && text.get_char(n - 3) == 'g' && text.get_char(n - 2)
        == 'i' && text.get_char(n - 1) == 'f';
    proof {
        if r {
            assert(text@.subrange(text@.len() - 4, text@.len() as int) =~= ".gif"@);
        } else {
            assert(text@.subrange(text@.len() - 4, text@.len() as int) != ".gif"@) by {
                if text@.subrange(text@.len() - 4, text@.len() as int) == ".gif"@ {
                    assert(text@[text@.len() - 4] == ".gif"@[0]);
                    assert(text@[text@.len() - 3] == ".gif"@[1]);
                    assert(text@[text@.len() - 2] == ".gif"@[2]);
                    assert(text@[text@.len() - 1] == ".gif"@[3]);
                }
            }
        }
    }
    r
}

/// Main background class for the current colour mode.
pub fn bg_main_class(dark: bool) -> (r: &'static str)
    ensures
        dark ==> r@ == "bg-gray-900"@,
        !dark ==> r@ == "bg-gray-50"@,
{
    if dark {
        "bg-gray-900"
    } else {
        "bg-gray-50"
    }
}

/// Sidebar background class for the current colour mode.
pub fn bg_sidebar_class(dark: bool) -> (r: &'static str)
    ensures
        dark ==> r@ == "bg-gray-800"@,
        !dark ==> r@ == "bg-gray-100"@,
{
    if dark {
        "bg-gray-800"
    } else {
        "bg-gray-100"
    }
}

/// Primary text class for the current colour mode.
pub fn text_main_class(dark: bool) -> (r: &'static str)
    ensures
        dark ==> r@ == "text-white"@,
        !dark ==> r@ == "text-gray-900"@,
{
    if dark {
        "text-white"
    } else {
        "text-gray-900"
    }
}

/// Secondary text class for the current colour mode.
pub fn text_secondary_class(dark: bool) -> (r: &'static str)
    ensures
        dark ==> r@ == "text-gray-300"@,
        !dark ==> r@ == "text-gray-600"@,
{
    if dark {
        "text-gray-300"
    } else {
        "text-gray-600"
    }
}

/// Message bubble background class for the current colour mode.
pub fn bg_message_class(dark: bool) -> (r: &'static str)
    ensures
        dark ==> r@ == "bg-gray-700"@,
        !dark ==> r@ == "bg-white"@,
{
    if dark {
        "bg-gray-700"
    } else {
        "bg-white"
    }
}

/// Border class for the current colour mode.
pub fn border_class(dark: bool) -> (r: &'static str)
    ensures
        dark ==> r@ == "border-gray-600"@,
        !dark ==> r@ == "border-gray-300"@,
{
    if dark {
        "border-gray-600"
    } else {
        "border-gray-300"
    }
}

/// The emoji offered as one-click reactions under every message.
pub fn reaction_choices() -> (r: Vec<&'static str>)
    ensures
        r@.len() == 4,
        r@[0]@ == "\u{2764}\u{fe0f}"@,
        r@[1]@ == "\u{1f44d}"@,
        r@[2]@ == "\u{1f602}"@,
        r@[3]@ == "\u{1f62e}"@,
{
    let mut v: Vec<&'static str> = Vec::new();
    v.push("\u{2764}\u{fe0f}");
    v.push("\u{1f44d}");
    v.push("\u{1f602}");
    v.push("\u{1f62e}");
    v
}

} // verus!
