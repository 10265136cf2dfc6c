//! The functions of outside crates that the library calls, each with what is
//! known of its result. Nothing here is proved.
use vstd::prelude::*;
use vstd::utf8::*;

use base64::Engine;

use crate::text::is_control_char;

verus! {

/// What base64 gives for some bytes, in the alphabet for URLs and without padding.
pub uninterp spec fn base64_url_text(bytes: Seq<u8>) -> Seq<char>;

/// The bytes that a text stands for in base64, in the alphabet for URLs and
/// without padding; nothing where the text is not of that form.
pub uninterp spec fn base64_url_bytes(text: Seq<char>) -> Option<Seq<u8>>;

/// `base64::Engine::encode` with the engine `URL_SAFE_NO_PAD`. The text depends
/// on the bytes alone, and decoding it with the same engine gives the bytes back.
#[verifier::external_body]
pub(crate) fn base64_url_encode(bytes: &[u8]) -> (text: String)
    ensures
        text@ == base64_url_text(bytes@),
        base64_url_bytes(text@) == Some(bytes@),
{
    base64::engine::general_purpose::URL_SAFE_NO_PAD.encode(bytes)
}

/// `base64::Engine::decode` with the engine `URL_SAFE_NO_PAD`. What comes out
/// depends on the text alone.
#[verifier::external_body]
pub(crate) fn base64_url_decode(text: &str) -> (bytes: Option<Vec<u8>>)
    ensures
        match bytes {
            Some(bytes) => base64_url_bytes(text@) == Some(bytes@),
            None => base64_url_bytes(text@) is None,
        },
{
    base64::engine::general_purpose::URL_SAFE_NO_PAD.decode(text).ok()
}

/// `String::from_utf8`: the text that bytes stand for in UTF-8, nothing where
/// they are not valid UTF-8.
#[verifier::external_body]
pub(crate) fn text_from_utf8(bytes: Vec<u8>) -> (text: Option<String>)
    ensures
        match text {
            Some(text) => valid_utf8(bytes@) && text@ == decode_utf8(bytes@),
            None => !valid_utf8(bytes@),
        },
{
    String::from_utf8(bytes).ok()
}

/// The text that `String::from_utf8_lossy` gives for some bytes.
pub uninterp spec fn lossy_text(bytes: Seq<u8>) -> Seq<char>;

/// `String::from_utf8_lossy`: the text that bytes stand for in UTF-8. What is not
/// valid UTF-8 is replaced; valid UTF-8 is read as it is.
#[verifier::external_body]
pub(crate) fn text_from_utf8_lossy(bytes: &[u8]) -> (text: String)
    ensures
        text@ == lossy_text(bytes@),
        valid_utf8(bytes@) ==> text@ == decode_utf8(bytes@),
{
    String::from_utf8_lossy(bytes).into_owned()
}

/// The lower-case form that Unicode gives a text.
pub uninterp spec fn lowercase(s: Seq<char>) -> Seq<char>;

/// `str::to_lowercase`: the lower-case form of a text, which depends on the text
/// alone and on no locale.
pub assume_specification[ str::to_lowercase ](s: &str) -> (out: std::string::String)
    ensures
        out@ == lowercase(s@),
;

/// The parts of the semantic version that a text stands for: its three numbers,
/// its pre-release part and its build part.
pub uninterp spec fn semver_parts(text: Seq<char>) -> Option<(u64, u64, u64, Seq<char>, Seq<char>)>;

/// `semver::Version::parse`: the parts of the version that a text stands for,
/// which depend on the text alone.
#[verifier::external_body]
pub(crate) fn parse_semver(text: &str) -> (parts: Option<(u64, u64, u64, String, String)>)
    ensures
        match parts {
            Some((major, minor, patch, pre, build)) => semver_parts(text@) == Some(
                (major, minor, patch, pre@, build@),
            ),
            None => semver_parts(text@) is None,
        },
{
    semver::Version::parse(text).ok().map(
        |v| (v.major, v.minor, v.patch, v.pre.as_str().to_owned(), v.build.as_str().to_owned()),
    )
}

/// How two versions stand to one another: below zero where the first comes first,
/// zero where neither does, above zero else.
pub uninterp spec fn semver_order(
    a: (u64, u64, u64, Seq<char>, Seq<char>),
    b: (u64, u64, u64, Seq<char>, Seq<char>),
) -> i8;

/// Whether the order of two versions fits in with the orders of others: turned round it
/// is its opposite, and it carries over to a third.
pub open spec fn order_fits(
    a: (u64, u64, u64, Seq<char>, Seq<char>),
    b: (u64, u64, u64, Seq<char>, Seq<char>),
    order: i8,
) -> bool {
    &&& semver_order(b, a) == -order
    &&& forall|c: (u64, u64, u64, Seq<char>, Seq<char>)| #[trigger]
        semver_order(b, c) >= 0 && order >= 0 ==> semver_order(a, c) >= 0 && (semver_order(b, c) > 0
            || order > 0 ==> semver_order(a, c) > 0)
    &&& forall|c: (u64, u64, u64, Seq<char>, Seq<char>)| #[trigger]
        semver_order(a, c) >= 0 && order <= 0 ==> semver_order(b, c) >= 0 && (semver_order(a, c) > 0
            || order < 0 ==> semver_order(b, c) > 0)
}

/// `Ord::cmp` of `semver::Version`, made of the parts given; a pre-release or build
/// part that is not of its form counts as empty. The three numbers decide first,
/// and a version stands level with itself. The order is total: turned round it is the
/// opposite, and it carries over.
#[verifier::external_body]
pub(crate) fn order_semver(
    a: (u64, u64, u64),
    a_pre: &str,
    a_build: &str,
    b: (u64, u64, u64),
    b_pre: &str,
    b_build: &str,
) -> (order: i8)
    ensures
        order == semver_order(
            (a.0, a.1, a.2, a_pre@, a_build@),
            (b.0, b.1, b.2, b_pre@, b_build@),
        ),
        numbers_below(a, b) ==> order < 0,
        numbers_below(b, a) ==> order > 0,
        a == b && a_pre@ == b_pre@ && a_build@ == b_build@ ==> order == 0,
        order_fits(
            (a.0, a.1, a.2, a_pre@, a_build@),
            (b.0, b.1, b.2, b_pre@, b_build@),
            order,
        ),
{
    let version = |n: (u64, u64, u64), pre: &str, build: &str| semver::Version {
        major: n.0,
        minor: n.1,
        patch: n.2,
        pre: semver::Prerelease::new(pre).unwrap_or_default(),
        build: semver::BuildMetadata::new(build).unwrap_or_default(),
    };
    match version(a, a_pre, a_build).cmp(&version(b, b_pre, b_build)) {
        std::cmp::Ordering::Less => -1,
        std::cmp::Ordering::Equal => 0,
        std::cmp::Ordering::Greater => 1,
    }
}

/// Whether three numbers come before three others, the first that differ deciding.
pub open spec fn numbers_below(a: (u64, u64, u64), b: (u64, u64, u64)) -> bool {
    a.0 < b.0 || (a.0 == b.0 && (a.1 < b.1 || (a.1 == b.1 && a.2 < b.2)))
}

/// The scheme of the URL that a text stands for, or why it stands for none.
pub uninterp spec fn url_scheme(text: Seq<char>) -> Result<Seq<char>, Seq<char>>;

/// `reqwest::Url::parse`, of which the scheme is kept; an error is kept as its text.
/// Both depend on the text alone.
#[verifier::external_body]
pub(crate) fn parse_url_scheme(text: &str) -> (out: Result<String, String>)
    ensures
        match out {
            Ok(scheme) => url_scheme(text@) == Ok::<Seq<char>, Seq<char>>(scheme@),
            Err(error) => url_scheme(text@) == Err::<Seq<char>, Seq<char>>(error@),
        },
{
    match reqwest::Url::parse(text) {
        Ok(url) => Ok(url.scheme().to_owned()),
        Err(error) => Err(error.to_string()),
    }
}

/// How many characters a URL and a pair for its query may have together. A URL counts
/// its bytes in 32 bits, and a character may come to many bytes in it.
pub const URL_LIMIT: usize = 0x100_0000;

/// A URL with one pair more in its query.
pub uninterp spec fn url_with_pair(base: Seq<char>, key: Seq<char>, value: Seq<char>) -> Seq<char>;

/// `reqwest::Url::query_pairs_mut` and `append_pair` on the URL that a text stands for.
/// The URL that comes out depends on the arguments alone. There is none where the text
/// stands for no URL, and then for the reason that parsing it gives.
#[verifier::external_body]
pub(crate) fn add_query_pair(base: &str, key: &str, value: &str) -> (out: Result<String, String>)
    requires
        base@.len() + key@.len() + value@.len() <= URL_LIMIT,
    ensures
        match out {
            Ok(url) => url_scheme(base@) is Ok && url@ == url_with_pair(base@, key@, value@),
            Err(error) => url_scheme(base@) == Err::<Seq<char>, Seq<char>>(error@),
        },
{
    match reqwest::Url::parse(base) {
        Ok(mut url) => {
            url.query_pairs_mut().append_pair(key, value);
            Ok(url.into())
        },
        Err(error) => Err(error.to_string()),
    }
}

/// How many columns of a terminal a character takes; nothing for a control character.
pub uninterp spec fn char_width(c: char) -> Option<usize>;

/// `unicode_width::UnicodeWidthChar::width`: the columns that a character takes, which
/// depend on the character alone. Control characters have none, the printable
/// characters of ASCII take one, and no character takes more than three.
#[verifier::external_body]
pub(crate) fn width_of_char(c: char) -> (width: Option<usize>)
    ensures
        width == char_width(c),
        width is None <==> is_control_char(c),
        ' ' <= c <= '~' ==> width == Some(1usize),
        width matches Some(n) ==> n <= 3,
{
    unicode_width::UnicodeWidthChar::width(c)
}

/// How high one of some rows is to be.
#[derive(Clone, Copy, Debug, PartialEq, Eq)]
pub enum RowHeight {
    Length(u16),
    AtLeast(u16),
}

/// The height that a row asks for.
pub open spec fn asked_height(height: RowHeight) -> int {
    match height {
        RowHeight::Length(n) => n as int,
        RowHeight::AtLeast(n) => n as int,
    }
}

/// The height that some rows ask for together.
pub open spec fn asked_heights(heights: Seq<RowHeight>) -> int
    decreases heights.len(),
{
    if heights.len() == 0 {
        0
    } else {
        asked_heights(heights.drop_last()) + asked_height(heights.last())
    }
}

/// How many of some rows may grow.
pub open spec fn growing_rows(heights: Seq<RowHeight>) -> nat
    decreases heights.len(),
{
    if heights.len() == 0 {
        0
    } else {
        growing_rows(heights.drop_last()) + (if heights.last() is AtLeast {
            1nat
        } else {
            0nat
        })
    }
}

/// Whether some rows fit a height, and one of them takes what is left of it.
pub open spec fn rows_fit(heights: Seq<RowHeight>, height: int) -> bool {
    growing_rows(heights) == 1 && asked_heights(heights) <= height
}

/// How high one of some rows is that fit a height: as high as it asks to be, and the one
/// that may grow higher by what is left.
pub open spec fn row_height(heights: Seq<RowHeight>, height: int, i: int) -> int {
    match heights[i] {
        RowHeight::Length(n) => n as int,
        RowHeight::AtLeast(n) => n + (height - asked_heights(heights)),
    }
}

/// Where one of some rows starts that fit a height and stand one below another.
pub open spec fn row_top(heights: Seq<RowHeight>, y: int, height: int, i: int) -> int
    decreases i,
{
    if i <= 0 {
        y
    } else {
        row_top(heights, y, height, i - 1) + row_height(heights, height, i - 1)
    }
}

/// `ratatui::layout::Layout::vertical` and `split`: an area in rows, each of a `Length` or
/// of a `Min`. Every row is as wide as the area and starts at its left edge, and lies
/// within the area from top to bottom. Where the rows fit the area and one of them is of a
/// `Min`, they stand one below another from the top on, each as high as it asks to be,
/// and the `Min` takes what is left. How rows that do not fit are cut is left unsaid: the
/// solver then has more than one best answer, and takes one by the order of a hash map.
#[verifier::external_body]
pub(crate) fn split_vertically(
    x: u16,
    y: u16,
    width: u16,
    height: u16,
    heights: &Vec<RowHeight>,
) -> (rows: Vec<(u16, u16, u16, u16)>)
    requires
        x + width <= u16::MAX,
        y + height <= u16::MAX,
    ensures
        rows@.len() == heights@.len(),
        forall|i: int|
            0 <= i < rows@.len() ==> {
                &&& (#[trigger] rows@[i]).0 == x
                &&& rows@[i].2 == width
                &&& y <= rows@[i].1
                &&& rows@[i].1 + rows@[i].3 <= y + height
            },
        rows_fit(heights@, height as int) ==> forall|i: int|
            0 <= i < rows@.len() ==> {
                &&& (#[trigger] rows@[i]).1 == row_top(heights@, y as int, height as int, i)
                &&& rows@[i].3 == row_height(heights@, height as int, i)
            },
{
    let area = ratatui::layout::Rect { x, y, width, height };
    let constraints = heights.iter().map(
        |height| match height {
            RowHeight::Length(n) => ratatui::layout::Constraint::Length(*n),
            RowHeight::AtLeast(n) => ratatui::layout::Constraint::Min(*n),
        },
    );
    ratatui::layout::Layout::vertical(constraints).split(area).iter().map(
        |row| (row.x, row.y, row.width, row.height),
    ).collect()
}

} // verus!
