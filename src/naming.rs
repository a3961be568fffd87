//! File names: the page-entry names that conversions emit, and the
//! recognition of image entries by extension.
use vstd::prelude::*;

verus! {

/// The encoding of an output page image.
#[derive(Debug, Clone, Copy, PartialEq, Eq, Structural)]
pub enum ImageFormat {
    Jpeg,
    Png,
}

pub open spec fn extension_spec(format: ImageFormat) -> Seq<char> {
    match format {
        ImageFormat::Jpeg => seq!['j', 'p', 'g'],
        ImageFormat::Png => seq!['p', 'n', 'g'],
    }
}

impl ImageFormat {
    /// The file extension of the format, without the dot.
    pub fn extension(&self) -> (r: &'static str)
        ensures
            r@ == extension_spec(*self),
    {
        match self {
            ImageFormat::Jpeg => {
                proof {
                    reveal_strlit("jpg");
                }
                "jpg"
            },
            ImageFormat::Png => {
                proof {
                    reveal_strlit("png");
                }
                "png"
            },
        }
    }
}

pub open spec fn digit_char(d: nat) -> char {
    if d == 0 {
        '0'
    } else if d == 1 {
        '1'
    } else if d == 2 {
        '2'
    } else if d == 3 {
        '3'
    } else if d == 4 {
        '4'
    } else if d == 5 {
        '5'
    } else if d == 6 {
        '6'
    } else if d == 7 {
        '7'
    } else if d == 8 {
        '8'
    } else {
        '9'
    }
}

/// Decimal notation of `n`, without leading zeros.
pub open spec fn decimal(n: nat) -> Seq<char>
    decreases n,
{
    if n < 10 {
        seq![digit_char(n)]
    } else {
        decimal(n / 10).push(digit_char(n % 10))
    }
}

pub open spec fn zeros(n: nat) -> Seq<char> {
    Seq::new(n, |_i: int| '0')
}

/// `s` preceded by as many zeros as bring it to `width` characters.
pub open spec fn zero_padded(s: Seq<char>, width: nat) -> Seq<char> {
    if s.len() < width {
        zeros((width - s.len()) as nat) + s
    } else {
        s
    }
}

/// `page_NNNN.ext`: the page number zero-padded to four digits.
pub open spec fn page_filename_spec(page_number: nat, format: ImageFormat) -> Seq<char> {
    seq!['p', 'a', 'g', 'e', '_'] + zero_padded(decimal(page_number), 4) + seq!['.']
        + extension_spec(format)
}

fn digit_str(d: u32) -> (r: &'static str)
    requires
        d < 10,
    ensures
        r@ == seq![digit_char(d as nat)],
{
    proof {
        reveal_strlit("0");
        reveal_strlit("1");
        reveal_strlit("2");
        reveal_strlit("3");
        reveal_strlit("4");
        reveal_strlit("5");
        reveal_strlit("6");
        reveal_strlit("7");
        reveal_strlit("8");
        reveal_strlit("9");
    }
    if d == 0 {
        "0"
    } else if d == 1 {
        "1"
    } else if d == 2 {
        "2"
    } else if d == 3 {
        "3"
    } else if d == 4 {
        "4"
    } else if d == 5 {
        "5"
    } else if d == 6 {
        "6"
    } else if d == 7 {
        "7"
    } else if d == 8 {
        "8"
    } else {
        "9"
    }
}

fn append_decimal(s: &mut String, n: u32)
    ensures
        final(s)@ == old(s)@ + decimal(n as nat),
    decreases n,
{
    if n >= 10 {
        append_decimal(s, n / 10);
    }
    s.append(digit_str(n % 10));
    proof {
        if n >= 10 {
            assert(old(s)@ + decimal(n as nat) =~= old(s)@ + decimal((n / 10) as nat) + seq![
                digit_char((n % 10) as nat),
            ]);
        } else {
            assert(decimal(n as nat) =~= seq![digit_char((n % 10) as nat)]);
        }
    }
}

fn decimal_len(n: u32) -> (r: usize)
    ensures
        r == decimal(n as nat).len(),
        1 <= r <= 10,
        n < 10 ==> r == 1,
        n < 100 ==> r <= 2,
        n < 1000 ==> r <= 3,
        n < 10000 ==> r <= 4,
        n < 100000 ==> r <= 5,
        n < 1000000 ==> r <= 6,
        n < 10000000 ==> r <= 7,
        n < 100000000 ==> r <= 8,
        n < 1000000000 ==> r <= 9,
    decreases n,
{
    if n >= 10 {
        decimal_len(n / 10) + 1
    } else {
        1
    }
}

/// The entry name of a page: `page_0007.jpg`.
pub fn page_filename(page_number: u32, format: ImageFormat) -> (r: String)
    ensures
        r@ == page_filename_spec(page_number as nat, format),
{
    proof {
        reveal_strlit("page_");
        reveal_strlit("0");
        reveal_strlit(".");
    }
    let mut s = String::from_str("page_");
    let len = decimal_len(page_number);
    let mut k: usize = len;
    while k < 4
        invariant
            len == decimal(page_number as nat).len(),
            len <= k <= 4 || (k == len && len > 4),
            s@ == seq!['p', 'a', 'g', 'e', '_'] + zeros((k - len) as nat),
        decreases 4 - k,
    {
        s.append("0");
        proof {
            reveal_strlit("0");
            assert(zeros((k - len) as nat) + seq!['0'] =~= zeros((k + 1 - len) as nat));
            assert(s@ =~= seq!['p', 'a', 'g', 'e', '_'] + (zeros((k - len) as nat) + seq!['0']));
        }
        k = k + 1;
    }
    append_decimal(&mut s, page_number);
    s.append(".");
    s.append(format.extension());
    proof {
        let d = decimal(page_number as nat);
        if d.len() < 4 {
            assert(zero_padded(d, 4) =~= zeros((4 - len) as nat) + d);
        } else {
            assert(zeros((k - len) as nat) =~= Seq::<char>::empty());
        }
        assert(s@ =~= page_filename_spec(page_number as nat, format));
    }
    s
}

/// What `str::to_lowercase` makes of a string (full Unicode case folding).
pub uninterp spec fn lower_of(s: Seq<char>) -> Seq<char>;

/// The code of the ASCII lower-case form of an ASCII character code.
pub open spec fn ascii_lower_code(c: int) -> int {
    if 65 <= c <= 90 {
        c + 32
    } else {
        c
    }
}

/// Relies on `str::to_lowercase`: its result depends on the characters
/// alone, and an ASCII string maps character by character to its ASCII
/// lower case (`char::to_lowercase` on ASCII).
#[verifier::external_body]
fn lowercase(s: &str) -> (r: String)
    ensures
        r@ == lower_of(s@),
        (forall|i: int| 0 <= i < s@.len() ==> (#[trigger] s@[i] as int) < 128) ==> {
            &&& r@.len() == s@.len()
            &&& forall|i: int|
                0 <= i < s@.len() ==> (#[trigger] r@[i]) as int == ascii_lower_code(s@[i] as int)
        },
{
    s.to_lowercase()
}

pub open spec fn ends_with_spec(s: Seq<char>, suffix: Seq<char>) -> bool {
    suffix.len() <= s.len() && s.subrange(s.len() - suffix.len(), s.len() as int) == suffix
}

pub open spec fn jpg_ext() -> Seq<char> {
    seq!['.', 'j', 'p', 'g']
}

pub open spec fn jpeg_ext() -> Seq<char> {
    seq!['.', 'j', 'p', 'e', 'g']
}

pub open spec fn png_ext() -> Seq<char> {
    seq!['.', 'p', 'n', 'g']
}

pub open spec fn webp_ext() -> Seq<char> {
    seq!['.', 'w', 'e', 'b', 'p']
}

pub open spec fn gif_ext() -> Seq<char> {
    seq!['.', 'g', 'i', 'f']
}

/// A lower-case name that ends in one of the recognised image extensions.
pub open spec fn has_image_extension(lower: Seq<char>) -> bool {
    ends_with_spec(lower, jpg_ext()) || ends_with_spec(lower, jpeg_ext()) || ends_with_spec(
        lower,
        png_ext(),
    ) || ends_with_spec(lower, webp_ext()) || ends_with_spec(lower, gif_ext())
}

/// Whether `s` ends with `suffix`, character by character.
pub fn ends_with(s: &str, suffix: &str) -> (r: bool)
    ensures
        r == ends_with_spec(s@, suffix@),
{
    let n = s.unicode_len();
    let m = suffix.unicode_len();
    if m > n {
        return false;
    }
    let mut i: usize = 0;
    while i < m
        invariant
            n == s@.len(),
            m == suffix@.len(),
            m <= n,
            0 <= i <= m,
            forall|j: int| 0 <= j < i ==> s@[n - m + j] == suffix@[j],
        decreases m - i,
    {
        if s.get_char(n - m + i) != suffix.get_char(i) {
            assert(s@.subrange(n - m, n as int)[i as int] != suffix@[i as int]);
            return false;
        }
        i = i + 1;
    }
    assert(s@.subrange(n - m, n as int) =~= suffix@);
    true
}

/// Whether an already lower-cased name has an image extension
/// (`.jpg .jpeg .png .webp .gif`).
pub fn has_image_extension_lowered(lower: &str) -> (r: bool)
    ensures
        r == has_image_extension(lower@),
{
    proof {
        reveal_strlit(".jpg");
        reveal_strlit(".jpeg");
        reveal_strlit(".png");
        reveal_strlit(".webp");
        reveal_strlit(".gif");
        assert(".jpg"@ =~= jpg_ext());
        assert(".jpeg"@ =~= jpeg_ext());
        assert(".png"@ =~= png_ext());
        assert(".webp"@ =~= webp_ext());
        assert(".gif"@ =~= gif_ext());
    }
    ends_with(lower, ".jpg") || ends_with(lower, ".jpeg") || ends_with(lower, ".png") || ends_with(
        lower,
        ".webp",
    ) || ends_with(lower, ".gif")
}

/// Whether a file name names an image, its extension compared without
/// regard to case.
pub fn is_image_file(filename: &str) -> (r: bool)
    ensures
        r == has_image_extension(lower_of(filename@)),
        (forall|i: int| 0 <= i < filename@.len() ==> (#[trigger] filename@[i] as int) < 128) ==> {
            &&& lower_of(filename@).len() == filename@.len()
            &&& forall|i: int|
                0 <= i < filename@.len() ==> (#[trigger] lower_of(filename@)[i]) as int
                    == ascii_lower_code(filename@[i] as int)
        },
{
    let lower = lowercase(filename);
    has_image_extension_lowered(lower.as_str())
}

/// The format name of a lower-case file name, by its extension.
pub open spec fn format_name_spec(lower: Seq<char>) -> Seq<char> {
    if ends_with_spec(lower, jpg_ext()) || ends_with_spec(lower, jpeg_ext()) {
        seq!['j', 'p', 'e', 'g']
    } else if ends_with_spec(lower, png_ext()) {
        seq!['p', 'n', 'g']
    } else if ends_with_spec(lower, webp_ext()) {
        seq!['w', 'e', 'b', 'p']
    } else if ends_with_spec(lower, gif_ext()) {
        seq!['g', 'i', 'f']
    } else {
        seq!['u', 'n', 'k', 'n', 'o', 'w', 'n']
    }
}

/// The format name (`jpeg`, `png`, `webp`, `gif` or `unknown`) of an already
/// lower-cased file name.
pub fn image_format_name(lower: &str) -> (r: String)
    ensures
        r@ == format_name_spec(lower@),
{
    proof {
        reveal_strlit(".jpg");
        reveal_strlit(".jpeg");
        reveal_strlit(".png");
        reveal_strlit(".webp");
        reveal_strlit(".gif");
        reveal_strlit("jpeg");
        reveal_strlit("png");
        reveal_strlit("webp");
        reveal_strlit("gif");
        reveal_strlit("unknown");
        assert(".jpg"@ =~= jpg_ext());
        assert(".jpeg"@ =~= jpeg_ext());
        assert(".png"@ =~= png_ext());
        assert(".webp"@ =~= webp_ext());
        assert(".gif"@ =~= gif_ext());
        assert("jpeg"@ =~= seq!['j', 'p', 'e', 'g']);
        assert("png"@ =~= seq!['p', 'n', 'g']);
        assert("webp"@ =~= seq!['w', 'e', 'b', 'p']);
        assert("gif"@ =~= seq!['g', 'i', 'f']);
        assert("unknown"@ =~= seq!['u', 'n', 'k', 'n', 'o', 'w', 'n']);
    }
    if ends_with(lower, ".jpg") || ends_with(lower, ".jpeg") {
        String::from_str("jpeg")
    } else if ends_with(lower, ".png") {
        String::from_str("png")
    } else if ends_with(lower, ".webp") {
        String::from_str("webp")
    } else if ends_with(lower, ".gif") {
        String::from_str("gif")
    } else {
        String::from_str("unknown")
    }
}

/// The format name of a file name, its extension compared without regard
/// to case.
pub fn detect_image_format(filename: &str) -> (r: String)
    ensures
        r@ == format_name_spec(lower_of(filename@)),
{
    let lower = lowercase(filename);
    image_format_name(lower.as_str())
}

} // verus!
