use super::animation::Direction;
use vstd::prelude::*;

verus! {

/// The index of the first `c` in `s` at or after `from`, if any.
pub open spec fn find_from(s: Seq<char>, c: char, from: int) -> Option<int>
    decreases s.len() - from,
{
    if from < 0 || from >= s.len() {
        None
    } else if s[from] == c {
        Some(from)
    } else {
        find_from(s, c, from + 1)
    }
}

/// A pattern the file-name formatter accepts: a `%` followed later by a `d`.
pub open spec fn valid_sprite_pattern(pattern: Seq<char>) -> bool {
    &&& find_from(pattern, '%', 0) is Some
    &&& find_from(pattern, 'd', find_from(pattern, '%', 0)->0) is Some
}

/// The position of the first `c` in `s` at or after `from` (see `find_from`).
fn find_char_from(s: &str, c: char, from: usize) -> (found: Option<usize>)
    requires
        from <= s@.len(),
    ensures
        match found {
            Some(i) => find_from(s@, c, from as int) == Some(i as int),
            None => find_from(s@, c, from as int) is None,
        },
        found matches Some(i) ==> from <= i < s@.len(),
{
    let n = s.unicode_len();
    let mut i: usize = from;
    while i < n
        invariant
            n == s@.len(),
            from <= i <= n,
            find_from(s@, c, from as int) == find_from(s@, c, i as int),
        decreases n - i,
    {
        if s.get_char(i) == c {
            return Some(i);
        }
        i = i + 1;
    }
    None
}

/// Whether the file-name formatter accepts `pattern` (see `valid_sprite_pattern`).
pub fn is_valid_sprite_pattern(pattern: &str) -> (ok: bool)
    ensures
        ok == valid_sprite_pattern(pattern@),
{
    match find_char_from(pattern, '%', 0) {
        Some(pct) => find_char_from(pattern, 'd', pct).is_some(),
        None => false,
    }
}

/// `c` is an ASCII decimal digit.
pub open spec fn is_digit(c: char) -> bool {
    '0' <= c && c <= '9'
}

/// The value of a nonempty run of decimal digits.
pub open spec fn digits_value(s: Seq<char>) -> nat
    decreases s.len(),
{
    if s.len() == 0 {
        0
    } else {
        digits_value(s.drop_last()) * 10 + ((s.last() as int - '0' as int) as nat)
    }
}

/// `s` minus one leading `+`, if it has one.
pub open spec fn unsigned_part(s: Seq<char>) -> Seq<char> {
    if s.len() > 0 && s[0] == '+' { s.subrange(1, s.len() as int) } else { s }
}

/// Every character of `s` is a decimal digit.
pub open spec fn all_digits(s: Seq<char>) -> bool {
    forall|i: int| 0 <= i < s.len() ==> is_digit(#[trigger] s[i])
}

/// How Rust parses a `usize` from text: an optional leading `+`, then at least one
/// decimal digit and nothing else, with a value that fits in `usize`.
pub open spec fn parse_usize_spec(s: Seq<char>) -> Option<nat> {
    let digits = unsigned_part(s);
    if digits.len() > 0 && all_digits(digits) && digits_value(digits) <= usize::MAX {
        Some(digits_value(digits))
    } else {
        None
    }
}

/// The decimal digit character for `d` (0 to 9).
pub open spec fn digit_char(d: nat) -> char {
    ((d + 48) as u8) as char
}

/// The decimal representation of `n`, without leading zeros.
pub open spec fn decimal(n: nat) -> Seq<char>
    decreases n,
{
    if n < 10 {
        seq![digit_char(n)]
    } else {
        decimal(n / 10).push(digit_char(n % 10))
    }
}

/// `n` in decimal, left-padded with `0` to at least `width` characters.
pub open spec fn zero_padded(n: nat, width: nat) -> Seq<char> {
    let digits = decimal(n);
    if width > digits.len() {
        Seq::new((width - digits.len()) as nat, |i: int| '0') + digits
    } else {
        digits
    }
}

/// The file name for sprite `index`: the pattern with its `%<width>d` directive (from the
/// first `%` to the first `d` after it) replaced by `index` zero-padded to `width`
/// digits, where a width that does not parse as a `usize` counts as 0.
pub open spec fn sprite_filename_spec(pattern: Seq<char>, index: nat) -> Seq<char> {
    let pct = find_from(pattern, '%', 0)->0;
    let d = find_from(pattern, 'd', pct)->0;
    let width = match parse_usize_spec(pattern.subrange(pct + 1, d)) {
        Some(w) => w,
        None => 0,
    };
    pattern.subrange(0, pct) + zero_padded(index, width) + pattern.subrange(d + 1, pattern.len() as int)
}

/// Collects characters into a `String` (`FromIterator<char>`); the string holds exactly
/// those characters.
#[verifier::external_body]
pub(crate) fn string_from_chars(chars: &Vec<char>) -> (s: String)
    ensures
        s@ == chars@,
{
    chars.iter().collect()
}

pub(crate) fn find_char(s: &Vec<char>, c: char, from: usize) -> (found: Option<usize>)
    requires
        from <= s@.len(),
    ensures
        match found {
            Some(i) => find_from(s@, c, from as int) == Some(i as int),
            None => find_from(s@, c, from as int) is None,
        },
    decreases s@.len() - from,
{
    if from == s.len() {
        None
    } else if s[from] == c {
        Some(from)
    } else {
        find_char(s, c, from + 1)
    }
}

proof fn lemma_digits_value_push(s: Seq<char>, c: char)
    ensures
        digits_value(s.push(c)) == digits_value(s) * 10 + ((c as int - '0' as int) as nat),
{
    assert(s.push(c).drop_last() =~= s);
}

/// Parses `s[lo..hi]` the way `str::parse::<usize>` does.
pub(crate) fn parse_usize(s: &Vec<char>, lo: usize, hi: usize) -> (value: Option<usize>)
    requires
        lo <= hi <= s@.len(),
    ensures
        match value {
            Some(v) => parse_usize_spec(s@.subrange(lo as int, hi as int)) == Some(v as nat),
            None => parse_usize_spec(s@.subrange(lo as int, hi as int)) is None,
        },
{
    let ghost text = s@.subrange(lo as int, hi as int);
    let mut start = lo;
    if lo < hi && s[lo] == '+' {
        start = lo + 1;
    }
    let ghost digits = s@.subrange(start as int, hi as int);
    assert(digits =~= unsigned_part(text));
    if start == hi {
        return None;
    }
    let mut i = start;
    while i < hi
        invariant
            lo <= start <= i <= hi <= s@.len(),
            digits == s@.subrange(start as int, hi as int),
            text == s@.subrange(lo as int, hi as int),
            digits == unsigned_part(text),
            digits.len() > 0,
            forall|k: int| start <= k < i ==> is_digit(#[trigger] s@[k]),
        decreases hi - i,
    {
        let c = s[i];
        if !('0' <= c && c <= '9') {
            assert(!is_digit(digits[i - start]));
            assert(!all_digits(digits));
            return None;
        }
        i = i + 1;
    }
    assert forall|k: int| 0 <= k < digits.len() implies is_digit(#[trigger] digits[k]) by {
        assert(digits[k] == s@[start + k]);
    }
    assert(all_digits(digits));
    let mut acc: usize = 0;
    i = start;
    while i < hi
        invariant
            lo <= start <= i <= hi <= s@.len(),
            digits == s@.subrange(start as int, hi as int),
            text == s@.subrange(lo as int, hi as int),
            digits == unsigned_part(text),
            digits.len() > 0,
            forall|k: int| 0 <= k < digits.len() ==> is_digit(#[trigger] digits[k]),
            acc as nat == digits_value(digits.subrange(0, i - start)),
        decreases hi - i,
    {
        let c = s[i];
        assert(c == digits[i - start]);
        let d = (c as u32 - '0' as u32) as usize;
        proof {
            assert(digits.subrange(0, i + 1 - start) =~= digits.subrange(0, i - start).push(c));
            lemma_digits_value_push(digits.subrange(0, i - start), c);
        }
        match acc.checked_mul(10) {
            Some(m) => match m.checked_add(d) {
                Some(v) => {
                    acc = v;
                },
                None => {
                    proof { lemma_digits_value_monotone(digits, i + 1 - start); }
                    return None;
                },
            },
            None => {
                proof { lemma_digits_value_monotone(digits, i + 1 - start); }
                return None;
            },
        }
        i = i + 1;
    }
    assert(digits.subrange(0, i - start) =~= digits);
    Some(acc)
}

/// A longer run of digits is worth at least as much as its prefix.
proof fn lemma_digits_value_monotone(s: Seq<char>, n: int)
    requires
        0 <= n <= s.len(),
        forall|i: int| 0 <= i < s.len() ==> is_digit(#[trigger] s[i]),
    ensures
        digits_value(s.subrange(0, n)) <= digits_value(s),
    decreases s.len() - n,
{
    if n == s.len() {
        assert(s.subrange(0, n) =~= s);
    } else {
        lemma_digits_value_monotone(s, n + 1);
        let p = s.subrange(0, n + 1);
        assert(p.drop_last() =~= s.subrange(0, n));
        assert(is_digit(s[n]));
    }
}

/// Appends the decimal digits of `n`.
fn push_decimal(n: u32, out: &mut Vec<char>)
    ensures
        final(out)@ == old(out)@ + decimal(n as nat),
    decreases n,
{
    if n >= 10 {
        push_decimal(n / 10, out);
    }
    let d = (n % 10) as u8;
    out.push((d + 48) as char);
    proof {
        if n >= 10 {
            assert(decimal(n as nat) == decimal((n / 10) as nat).push(digit_char((n % 10) as nat)));
        }
    }
    assert(final(out)@ =~= old(out)@ + decimal(n as nat));
}

/// Formats the file name of sprite `index` from a pattern such as `"%04d.webp"`.
pub fn sprite_filename(pattern: &str, index: u32) -> (name: String)
    requires
        valid_sprite_pattern(pattern@),
    ensures
        name@ == sprite_filename_spec(pattern@, index as nat),
{
    let n = pattern.unicode_len();
    let mut chars: Vec<char> = Vec::new();
    let mut i: usize = 0;
    while i < n
        invariant
            n == pattern@.len(),
            i <= n,
            chars@ == pattern@.subrange(0, i as int),
        decreases n - i,
    {
        chars.push(pattern.get_char(i));
        assert(chars@ =~= pattern@.subrange(0, i + 1));
        i = i + 1;
    }
    assert(chars@ =~= pattern@);
    proof {
        lemma_find_from_bounds(chars@, '%', 0);
        lemma_find_from_bounds(chars@, 'd', find_from(chars@, '%', 0)->0);
    }
    let pct = match find_char(&chars, '%', 0) {
        Some(p) => p,
        None => {
            assert(false);
            0
        },
    };
    let d = match find_char(&chars, 'd', pct) {
        Some(q) => q,
        None => {
            assert(false);
            0
        },
    };
    let width: usize = match parse_usize(&chars, pct + 1, d) {
        Some(w) => w,
        None => 0,
    };
    let mut out: Vec<char> = Vec::new();
    let mut k: usize = 0;
    while k < pct
        invariant
            pct < d < chars@.len(),
            k <= pct,
            out@ == chars@.subrange(0, k as int),
        decreases pct - k,
    {
        out.push(chars[k]);
        assert(out@ =~= chars@.subrange(0, k + 1));
        k = k + 1;
    }
    let mut digits: Vec<char> = Vec::new();
    push_decimal(index, &mut digits);
    assert(digits@ =~= decimal(index as nat));
    let mut pad: usize = 0;
    let ghost prefix = out@;
    if width > digits.len() {
        while pad < width - digits.len()
            invariant
                width > digits@.len(),
                pad <= width - digits@.len(),
                out@ == prefix + Seq::new(pad as nat, |j: int| '0'),
            decreases width - digits@.len() - pad,
        {
            out.push('0');
            assert(out@ =~= prefix + Seq::new((pad + 1) as nat, |j: int| '0'));
            pad = pad + 1;
        }
    }
    let ghost padded = out@;
    let mut j: usize = 0;
    while j < digits.len()
        invariant
            j <= digits@.len(),
            out@ == padded + digits@.subrange(0, j as int),
        decreases digits@.len() - j,
    {
        out.push(digits[j]);
        assert(out@ =~= padded + digits@.subrange(0, j + 1));
        j = j + 1;
    }
    assert(digits@.subrange(0, j as int) =~= digits@);
    let ghost middle = out@;
    let mut t: usize = d + 1;
    while t < chars.len()
        invariant
            d + 1 <= t <= chars@.len(),
            out@ == middle + chars@.subrange(d + 1, t as int),
        decreases chars@.len() - t,
    {
        out.push(chars[t]);
        assert(out@ =~= middle + chars@.subrange(d + 1, t + 1));
        t = t + 1;
    }
    proof {
        let w = width as nat;
        let dec = decimal(index as nat);
        if w > dec.len() {
            assert(padded =~= chars@.subrange(0, pct as int) + Seq::new((w - dec.len()) as nat, |q: int| '0'));
        } else {
            assert(padded =~= chars@.subrange(0, pct as int));
        }
        assert(out@ =~= sprite_filename_spec(pattern@, index as nat));
    }
    string_from_chars(&out)
}

pub(crate) proof fn lemma_find_from_bounds(s: Seq<char>, c: char, from: int)
    ensures
        find_from(s, c, from) matches Some(i) ==> from <= i < s.len() && s[i] == c,
    decreases s.len() - from,
{
    if 0 <= from < s.len() && s[from] != c {
        lemma_find_from_bounds(s, c, from + 1);
    }
}

/// Byte offset of pixel `(x, y)` in a row-major RGBA buffer `width` pixels wide.
pub open spec fn pixel_offset(width: int, x: int, y: int) -> int {
    (y * width + x) * 4
}

proof fn lemma_pixel_offset_in_bounds(width: int, height: int, x: int, y: int)
    requires
        0 <= x < width,
        0 <= y < height,
    ensures
        0 <= y * width,
        y * width + x < width * height,
        0 <= pixel_offset(width, x, y),
        pixel_offset(width, x, y) + 4 <= width * height * 4,
{
    assert(0 <= y * width) by (nonlinear_arith)
        requires
            0 <= y,
            0 <= width,
    ;
    assert(y * width + x + 1 <= width * height) by (nonlinear_arith)
        requires
            0 <= x < width,
            0 <= y < height,
    ;
}

/// An RGBA image: `width x height` pixels, four bytes each, stored row by row.
#[derive(Debug, Clone)]
pub struct RgbaFrame {
    width: u32,
    height: u32,
    data: Vec<u8>,
}

impl RgbaFrame {
    pub closed spec fn width_spec(&self) -> nat {
        self.width as nat
    }

    pub closed spec fn height_spec(&self) -> nat {
        self.height as nat
    }

    /// The raw bytes, row by row, four per pixel (red, green, blue, alpha).
    pub closed spec fn bytes(&self) -> Seq<u8> {
        self.data@
    }

    /// The buffer holds exactly four bytes per pixel.
    pub open spec fn wf(&self) -> bool {
        self.bytes().len() == self.width_spec() * self.height_spec() * 4
    }

    /// The four bytes of pixel `(x, y)`.
    pub open spec fn pixel(&self, x: int, y: int) -> Seq<u8> {
        let o = pixel_offset(self.width_spec() as int, x, y);
        self.bytes().subrange(o, o + 4)
    }

    /// A fully transparent black image.
    pub fn new(width: u32, height: u32) -> (frame: Self)
        requires
            width * height * 4 <= usize::MAX,
        ensures
            frame.wf(),
            frame.width_spec() == width,
            frame.height_spec() == height,
            forall|i: int| 0 <= i < frame.bytes().len() ==> frame.bytes()[i] == 0,
    {
        let n = (width as usize) * (height as usize) * 4;
        let mut data: Vec<u8> = Vec::new();
        let mut i: usize = 0;
        while i < n
            invariant
                i <= n,
                data@.len() == i,
                forall|k: int| 0 <= k < i ==> data@[k] == 0,
            decreases n - i,
        {
            data.push(0);
            i = i + 1;
        }
        RgbaFrame { width, height, data }
    }

    /// An image over an existing buffer, when it holds exactly four bytes per pixel.
    pub fn from_raw(width: u32, height: u32, data: Vec<u8>) -> (frame: Option<Self>)
        ensures
            frame is Some <==> data@.len() == width * height * 4,
            frame matches Some(f) ==> f.wf() && f.width_spec() == width && f.height_spec() == height
                && f.bytes() == data@,
    {
        let w = width as u64;
        let h = height as u64;
        assert(w * h <= 0xffff_fffe_0000_0001) by (nonlinear_arith)
            requires
                w <= 0xffff_ffff,
                h <= 0xffff_ffff,
        ;
        let needed = w * h;
        let len = data.len();
        if needed <= (u64::MAX / 4) && (len as u64) == needed * 4 {
            Some(RgbaFrame { width, height, data })
        } else {
            proof {
                if data@.len() == width * height * 4 {
                    assert(needed == width * height);
                    assert(needed * 4 <= usize::MAX);
                    assert(needed <= u64::MAX / 4);
                }
            }
            None
        }
    }

    pub fn width(&self) -> (w: u32)
        ensures
            w == self.width_spec(),
    {
        self.width
    }

    pub fn height(&self) -> (h: u32)
        ensures
            h == self.height_spec(),
    {
        self.height
    }

    /// The raw bytes.
    pub fn as_raw(&self) -> (raw: &Vec<u8>)
        ensures
            raw@ == self.bytes(),
    {
        &self.data
    }

    /// The raw bytes, giving up the image.
    pub fn into_raw(self) -> (raw: Vec<u8>)
        ensures
            raw@ == self.bytes(),
    {
        self.data
    }

    fn offset_of(&self, x: u32, y: u32) -> (o: usize)
        requires
            self.wf(),
            x < self.width_spec(),
            y < self.height_spec(),
        ensures
            o == pixel_offset(self.width_spec() as int, x as int, y as int),
            o + 4 <= self.bytes().len(),
    {
        proof { lemma_pixel_offset_in_bounds(self.width as int, self.height as int, x as int, y as int); }
        assert((y as u64) * (self.width as u64) <= 0xffff_fffe_0000_0001) by (nonlinear_arith)
            requires
                y <= 0xffff_ffff,
                self.width <= 0xffff_ffff,
        ;
        let len = self.data.len();
        let row = (y as u64) * (self.width as u64);
        let index = row + (x as u64);
        assert(row == (y as int) * (self.width as int));
        assert(index * 4 + 4 <= len);
        let o = (index * 4) as usize;
        assert(o == index * 4);
        o
    }

    /// The four bytes of pixel `(x, y)`.
    pub fn get_pixel(&self, x: u32, y: u32) -> (rgba: [u8; 4])
        requires
            self.wf(),
            x < self.width_spec(),
            y < self.height_spec(),
        ensures
            rgba@ == self.pixel(x as int, y as int),
    {
        proof { lemma_pixel_offset_in_bounds(self.width as int, self.height as int, x as int, y as int); }
        let o = self.offset_of(x, y);
        let rgba = [self.data[o], self.data[o + 1], self.data[o + 2], self.data[o + 3]];
        assert(rgba@ =~= self.pixel(x as int, y as int));
        rgba
    }

    /// Sets pixel `(x, y)`, leaving every other byte as it was.
    pub fn put_pixel(&mut self, x: u32, y: u32, rgba: [u8; 4])
        requires
            old(self).wf(),
            x < old(self).width_spec(),
            y < old(self).height_spec(),
        ensures
            final(self).wf(),
            final(self).width_spec() == old(self).width_spec(),
            final(self).height_spec() == old(self).height_spec(),
            final(self).pixel(x as int, y as int) == rgba@,
            forall|i: int| 0 <= i < old(self).bytes().len()
                && !(pixel_offset(old(self).width_spec() as int, x as int, y as int) <= i
                    < pixel_offset(old(self).width_spec() as int, x as int, y as int) + 4)
                ==> final(self).bytes()[i] == old(self).bytes()[i],
    {
        proof { lemma_pixel_offset_in_bounds(self.width as int, self.height as int, x as int, y as int); }
        let o = self.offset_of(x, y);
        self.data.set(o, rgba[0]);
        self.data.set(o + 1, rgba[1]);
        self.data.set(o + 2, rgba[2]);
        self.data.set(o + 3, rgba[3]);
        assert(self.pixel(x as int, y as int) =~= rgba@);
    }
}

/// Calls `image::imageops::flip_horizontal` on the image: the result has the same size
/// and each pixel `(x, y)` is the source's pixel `(width - 1 - x, y)`.
#[verifier::external_body]
fn flip_horizontal(frame: &RgbaFrame) -> (flipped: RgbaFrame)
    requires
        frame.wf(),
    ensures
        flipped.wf(),
        flipped.width_spec() == frame.width_spec(),
        flipped.height_spec() == frame.height_spec(),
        forall|x: int, y: int| 0 <= x < frame.width_spec() && 0 <= y < frame.height_spec()
            ==> #[trigger] flipped.pixel(x, y) == frame.pixel(frame.width_spec() - 1 - x, y),
{
    let image = image::RgbaImage::from_raw(frame.width, frame.height, frame.data.clone()).unwrap();
    let out = image::imageops::flip_horizontal(&image);
    RgbaFrame { width: out.width(), height: out.height(), data: out.into_raw() }
}

/// Bundle art is drawn facing left and shared by left- and right-facing animations: a
/// right-facing mascot shows the mirror image, any other facing shows the frame as drawn.
pub fn oriented_sprite(frame: RgbaFrame, facing: Direction) -> (oriented: RgbaFrame)
    requires
        frame.wf(),
    ensures
        oriented.wf(),
        oriented.width_spec() == frame.width_spec(),
        oriented.height_spec() == frame.height_spec(),
        facing == Direction::Right ==> forall|x: int, y: int|
            0 <= x < frame.width_spec() && 0 <= y < frame.height_spec()
                ==> #[trigger] oriented.pixel(x, y) == frame.pixel(frame.width_spec() - 1 - x, y),
        facing != Direction::Right ==> oriented.bytes() == frame.bytes(),
{
    match facing {
        Direction::Right => flip_horizontal(&frame),
        Direction::Left | Direction::Any => frame,
    }
}

} // verus!
