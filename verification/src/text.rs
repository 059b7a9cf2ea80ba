//! Names: the characters of long and short file names, and how two names
//! are compared.

use vstd::prelude::*;
use vstd::slice::slice_subrange;
use vstd::string::StrSliceExecFns;
use vstd::string::StringExecFns;
use vstd::utf8::is_scalar;

verus! {

/// The character that stands for a UTF-16 code unit that cannot be decoded.
pub const PLACEHOLDER: char = '_';

/// Specifies `char::from_u32` of the standard library: it gives the character
/// with the scalar value `i`, and nothing for a number that is no scalar
/// value (a surrogate, or a number above `0x10FFFF`).
pub assume_specification[ char::from_u32 ](i: u32) -> (r: Option<char>)
    ensures
        r == (if is_scalar(i) {
            Some(i as char)
        } else {
            None::<char>
        }),
;

/// Specifies `String::push` of the standard library: it puts the character
/// `c` at the end of the string.
pub assume_specification[ String::push ](s: &mut String, c: char)
    ensures
        final(s)@ == old(s)@.push(c),
;

/// The characters that `String::from_utf8_lossy` makes of the bytes
/// `bytes`.
pub uninterp spec fn utf8_lossy(bytes: Seq<u8>) -> Seq<char>;

/// Every byte is an ASCII character.
pub open spec fn is_ascii_bytes(bytes: Seq<u8>) -> bool {
    forall|i: int| 0 <= i < bytes.len() ==> #[trigger] bytes[i] < 0x80
}

/// The characters that ASCII bytes stand for, one for each byte.
pub open spec fn ascii_chars(bytes: Seq<u8>) -> Seq<char> {
    Seq::new(bytes.len(), |i: int| bytes[i] as char)
}

/// Calls `String::from_utf8_lossy` of the standard library, which decodes
/// bytes as UTF-8 and puts U+FFFD in the place of what is not UTF-8. Bytes
/// that are all ASCII come out as the characters they are.
#[verifier::external_body]
pub(crate) fn from_utf8_lossy(bytes: &[u8]) -> (r: String)
    ensures
        r@ == utf8_lossy(bytes@),
        is_ascii_bytes(bytes@) ==> r@ == ascii_chars(bytes@),
{
    String::from_utf8_lossy(bytes).into_owned()
}

/// A code unit is the first half of a surrogate pair.
pub open spec fn is_high_surrogate(u: u16) -> bool {
    0xD800 <= u <= 0xDBFF
}

/// A code unit is the second half of a surrogate pair.
pub open spec fn is_low_surrogate(u: u16) -> bool {
    0xDC00 <= u <= 0xDFFF
}

/// The scalar value that a surrogate pair stands for.
pub open spec fn pair_scalar(high: u16, low: u16) -> int {
    0x10000 + (high - 0xD800) * 0x400 + (low - 0xDC00)
}

/// The characters that UTF-16 code units stand for. A surrogate pair is one
/// character, a surrogate without its partner is the placeholder, and any
/// other unit is the character with that number.
pub open spec fn decode_utf16(units: Seq<u16>) -> Seq<char>
    decreases units.len(),
{
    if units.len() == 0 {
        Seq::<char>::empty()
    } else if is_high_surrogate(units[0]) && units.len() >= 2 && is_low_surrogate(units[1]) {
        seq![pair_scalar(units[0], units[1]) as char] + decode_utf16(units.skip(2))
    } else if is_high_surrogate(units[0]) || is_low_surrogate(units[0]) {
        seq![PLACEHOLDER] + decode_utf16(units.skip(1))
    } else {
        seq![units[0] as char] + decode_utf16(units.skip(1))
    }
}

/// A code unit ends a long name: `0x0000` after the last character, or the
/// `0xFFFF` that fills the rest of a record.
pub open spec fn is_terminator(u: u16) -> bool {
    u == 0x0000 || u == 0xFFFF
}

/// The code units of `units` that come before the first terminator.
pub open spec fn before_terminator(units: Seq<u16>) -> Seq<u16>
    decreases units.len(),
{
    if units.len() == 0 || is_terminator(units[0]) {
        Seq::<u16>::empty()
    } else {
        seq![units[0]] + before_terminator(units.skip(1))
    }
}

/// The long name that the code units of its records spell.
pub open spec fn long_name(units: Seq<u16>) -> Seq<char> {
    decode_utf16(before_terminator(units))
}

/// A byte pads a short name: a space or a zero.
pub open spec fn is_padding(b: u8) -> bool {
    b == 0x20 || b == 0x00
}

/// The bytes of a name field without the padding at its end.
pub open spec fn trimmed(field: Seq<u8>) -> Seq<u8>
    decreases field.len(),
{
    if field.len() > 0 && is_padding(field.last()) {
        trimmed(field.drop_last())
    } else {
        field
    }
}

/// A short name put together from the characters of its base and of its
/// extension: a dot stands between them, and no dot where there is no
/// extension.
pub open spec fn joined_name(base: Seq<char>, extension: Option<Seq<char>>) -> Seq<char> {
    match extension {
        Some(e) => base + seq!['.'] + e,
        None => base,
    }
}

/// The short name that an eight-byte base field and a three-byte extension
/// field spell.
pub open spec fn short_name(base: Seq<u8>, extension: Seq<u8>) -> Seq<char> {
    joined_name(
        utf8_lossy(trimmed(base)),
        if trimmed(extension).len() > 0 {
            Some(utf8_lossy(trimmed(extension)))
        } else {
            None
        },
    )
}

/// The character without its case, if it is an ASCII letter.
pub open spec fn ascii_fold(c: char) -> u32 {
    if 'A' <= c <= 'Z' {
        (c as u32 + 32) as u32
    } else {
        c as u32
    }
}

/// Two names are the same but for the case of their ASCII letters.
pub open spec fn same_name(a: Seq<char>, b: Seq<char>) -> bool {
    &&& a.len() == b.len()
    &&& forall|i: int| 0 <= i < a.len() ==> ascii_fold(#[trigger] a[i]) == ascii_fold(b[i])
}

/// Decodes UTF-16 code units into a string. What cannot be decoded becomes
/// the placeholder.
pub fn utf16_to_string(units: &[u16]) -> (r: String)
    ensures
        r@ == decode_utf16(units@),
{
    let mut out = String::new();
    let n = units.len();
    let mut i: usize = 0;
    assert(units@.skip(0) =~= units@);
    while i < n
        invariant
            i <= n,
            n == units@.len(),
            decode_utf16(units@) == out@ + decode_utf16(units@.skip(i as int)),
        decreases n - i,
    {
        let ghost rest = units@.skip(i as int);
        let ghost done = out@;
        let u: u16 = units[i];
        assert(rest[0] == u);
        if 0xD800 <= u && u <= 0xDBFF && i + 1 < n && 0xDC00 <= units[i + 1] && units[i + 1]
            <= 0xDFFF {
            let low: u16 = units[i + 1];
            assert(rest[1] == low);
            let scalar: u32 = 0x10000 + ((u - 0xD800) as u32) * 0x400 + (low - 0xDC00) as u32;
            match char::from_u32(scalar) {
                Some(c) => {
                    out.push(c);
                },
                None => {
                    assert(false);
                },
            }
            proof {
                let tail = decode_utf16(rest.skip(2));
                assert(rest.skip(2) =~= units@.skip(i + 2));
                assert(done + (seq![scalar as char] + tail) =~= done.push(scalar as char) + tail);
            }
            i += 2;
        } else if 0xD800 <= u && u <= 0xDFFF {
            out.push(PLACEHOLDER);
            proof {
                let tail = decode_utf16(rest.skip(1));
                assert(rest.skip(1) =~= units@.skip(i + 1));
                assert(done + (seq![PLACEHOLDER] + tail) =~= done.push(PLACEHOLDER) + tail);
            }
            i += 1;
        } else {
            match char::from_u32(u as u32) {
                Some(c) => {
                    out.push(c);
                },
                None => {
                    assert(false);
                },
            }
            proof {
                let tail = decode_utf16(rest.skip(1));
                assert(rest.skip(1) =~= units@.skip(i + 1));
                assert(done + (seq![u as char] + tail) =~= done.push(u as char) + tail);
            }
            i += 1;
        }
    }
    assert(units@.skip(n as int) =~= Seq::<u16>::empty());
    assert(out@ + Seq::<char>::empty() =~= out@);
    out
}

/// The code units before the first terminator are the first `k` units, where
/// `k` is the place of the first terminator, or the number of units if there
/// is none.
pub proof fn lemma_before_terminator(units: Seq<u16>, k: int)
    requires
        0 <= k <= units.len(),
        forall|j: int| 0 <= j < k ==> !is_terminator(#[trigger] units[j]),
        k == units.len() || is_terminator(units[k]),
    ensures
        before_terminator(units) == units.subrange(0, k),
    decreases k,
{
    if k == 0 {
        assert(units.subrange(0, 0) =~= Seq::<u16>::empty());
    } else {
        let rest = units.skip(1);
        assert forall|j: int| 0 <= j < k - 1 implies !is_terminator(#[trigger] rest[j]) by {
            assert(rest[j] == units[j + 1]);
        }
        lemma_before_terminator(rest, k - 1);
        assert(seq![units[0]] + rest.subrange(0, k - 1) =~= units.subrange(0, k));
    }
}

/// Spells the long name that the code units of its records hold: the units
/// before the first `0x0000` or `0xFFFF`, decoded as UTF-16.
pub fn long_name_string(units: &[u16]) -> (r: String)
    ensures
        r@ == long_name(units@),
{
    let n = units.len();
    let mut end: usize = 0;
    while end < n && units[end] != 0x0000 && units[end] != 0xFFFF
        invariant
            end <= n,
            n == units@.len(),
            forall|j: int| 0 <= j < end ==> !is_terminator(#[trigger] units@[j]),
        decreases n - end,
    {
        end += 1;
    }
    proof {
        lemma_before_terminator(units@, end as int);
    }
    utf16_to_string(slice_subrange(units, 0, end))
}

/// The name field without the spaces and zeros at its end.
pub fn trim(field: &[u8]) -> (r: &[u8])
    ensures
        r@ == trimmed(field@),
{
    let mut end: usize = field.len();
    assert(field@.subrange(0, end as int) =~= field@);
    while end > 0 && (field[end - 1] == 0x20 || field[end - 1] == 0x00)
        invariant
            end <= field@.len(),
            trimmed(field@) == trimmed(field@.subrange(0, end as int)),
        decreases end,
    {
        assert(field@.subrange(0, end as int).drop_last() =~= field@.subrange(0, end - 1));
        end -= 1;
    }
    slice_subrange(field, 0, end)
}

/// The trimmed field is the front of the field.
pub proof fn lemma_trimmed_is_prefix(field: Seq<u8>)
    ensures
        trimmed(field).len() <= field.len(),
        trimmed(field) == field.subrange(0, trimmed(field).len() as int),
        is_ascii_bytes(field) ==> is_ascii_bytes(trimmed(field)),
    decreases field.len(),
{
    if field.len() > 0 && is_padding(field.last()) {
        let front = field.drop_last();
        lemma_trimmed_is_prefix(front);
        let n = trimmed(front).len() as int;
        assert(front.subrange(0, n) =~= field.subrange(0, n));
        if is_ascii_bytes(field) {
            assert forall|i: int| 0 <= i < front.len() implies #[trigger] front[i] < 0x80 by {
                assert(front[i] == field[i]);
            }
        }
    } else {
        assert(field.subrange(0, field.len() as int) =~= field);
    }
}

/// Puts a short name together from its base and its extension, with a dot
/// between the two.
pub fn join_name(base: String, extension: Option<String>) -> (r: String)
    ensures
        r@ == joined_name(
            base@,
            match extension {
                Some(e) => Some(e@),
                None => None,
            },
        ),
{
    let mut name = base;
    match extension {
        Some(e) => {
            name.push('.');
            name.append(e.as_str());
            assert(name@ =~= base@ + seq!['.'] + e@);
        },
        None => {},
    }
    name
}

/// Spells the short name of a record from its eight-byte base field and its
/// three-byte extension field. Trailing spaces and zeros do not belong to
/// the name, and a name without an extension has no dot.
pub fn short_name_string(base: &[u8], extension: &[u8]) -> (r: String)
    ensures
        r@ == short_name(base@, extension@),
        is_ascii_bytes(base@) && is_ascii_bytes(extension@) ==> r@ == joined_name(
            ascii_chars(trimmed(base@)),
            if trimmed(extension@).len() > 0 {
                Some(ascii_chars(trimmed(extension@)))
            } else {
                None
            },
        ),
{
    proof {
        lemma_trimmed_is_prefix(base@);
        lemma_trimmed_is_prefix(extension@);
    }
    let stem = from_utf8_lossy(trim(base));
    let suffix = trim(extension);
    if suffix.len() > 0 {
        join_name(stem, Some(from_utf8_lossy(suffix)))
    } else {
        join_name(stem, None)
    }
}

/// Compares two names without regard to the case of ASCII letters. Letters
/// outside ASCII are compared as they are.
pub fn eq_ignore_ascii_case(a: &str, b: &str) -> (r: bool)
    ensures
        r == same_name(a@, b@),
{
    let n = a.unicode_len();
    if b.unicode_len() != n {
        return false;
    }
    let mut i: usize = 0;
    while i < n
        invariant
            i <= n,
            n == a@.len(),
            n == b@.len(),
            forall|j: int| 0 <= j < i ==> ascii_fold(#[trigger] a@[j]) == ascii_fold(b@[j]),
        decreases n - i,
    {
        let x: u32 = a.get_char(i) as u32;
        let y: u32 = b.get_char(i) as u32;
        let fx: u32 = if 65 <= x && x <= 90 {
            x + 32
        } else {
            x
        };
        let fy: u32 = if 65 <= y && y <= 90 {
            y + 32
        } else {
            y
        };
        assert(fx == ascii_fold(a@[i as int]));
        assert(fy == ascii_fold(b@[i as int]));
        if fx != fy {
            return false;
        }
        i += 1;
    }
    true
}

/// A path component names an entry: it is not empty and is neither `.` nor
/// `..`.
pub open spec fn is_normal(component: Seq<char>) -> bool {
    &&& component.len() > 0
    &&& component != seq!['.']
    &&& component != seq!['.', '.']
}

/// The component, if it names an entry.
pub open spec fn kept(component: Seq<char>) -> Seq<Seq<char>> {
    if is_normal(component) {
        seq![component]
    } else {
        Seq::<Seq<char>>::empty()
    }
}

/// The components that name an entry in the rest of `path` from `at` on,
/// where the component at hand began at `begin`.
pub open spec fn components_from(path: Seq<char>, at: int, begin: int) -> Seq<Seq<char>>
    decreases path.len() - at,
{
    if at >= path.len() {
        kept(path.subrange(begin, path.len() as int))
    } else if path[at] == '/' {
        kept(path.subrange(begin, at)) + components_from(path, at + 1, at + 1)
    } else {
        components_from(path, at + 1, begin)
    }
}

/// The components of a slash-separated path that name an entry, in order.
/// Empty components, `.` and `..` name none.
pub open spec fn normal_components(path: Seq<char>) -> Seq<Seq<char>> {
    components_from(path, 0, 0)
}

/// The names that a list of strings holds.
pub open spec fn names_of(strings: Seq<String>) -> Seq<Seq<char>> {
    Seq::new(strings.len(), |i: int| strings[i]@)
}

/// The component of `path` between `begin` and `end`, if it names an entry.
fn component(path: &str, begin: usize, end: usize) -> (r: Option<String>)
    requires
        begin <= end <= path@.len(),
    ensures
        match r {
            Some(name) => kept(path@.subrange(begin as int, end as int)) == seq![name@],
            None => kept(path@.subrange(begin as int, end as int)) == Seq::<Seq<char>>::empty(),
        },
{
    let ghost c = path@.subrange(begin as int, end as int);
    let len = end - begin;
    if len == 0 {
        return None;
    }
    if len == 1 && path.get_char(begin) == '.' {
        assert(c =~= seq!['.']);
        return None;
    }
    if len == 2 && path.get_char(begin) == '.' && path.get_char(begin + 1) == '.' {
        assert(c =~= seq!['.', '.']);
        return None;
    }
    proof {
        if c == seq!['.'] {
            assert(c[0] == '.');
        }
        if c == seq!['.', '.'] {
            assert(c[0] == '.' && c[1] == '.');
        }
    }
    Some(String::from_str(path.substring_char(begin, end)))
}

/// Splits a slash-separated path into the components that name an entry.
pub fn components(path: &str) -> (r: Vec<String>)
    ensures
        names_of(r@) == normal_components(path@),
{
    let n = path.unicode_len();
    let mut out: Vec<String> = Vec::new();
    let mut begin: usize = 0;
    let mut at: usize = 0;
    assert(names_of(out@) =~= Seq::<Seq<char>>::empty());
    while at < n
        invariant
            begin <= at <= n,
            n == path@.len(),
            normal_components(path@) == names_of(out@) + components_from(
                path@,
                at as int,
                begin as int,
            ),
        decreases n - at,
    {
        if path.get_char(at) == '/' {
            let ghost before = names_of(out@);
            match component(path, begin, at) {
                Some(name) => {
                    out.push(name);
                    assert(names_of(out@) =~= before + seq![name@]);
                },
                None => {},
            }
            assert(names_of(out@) =~= before + kept(path@.subrange(begin as int, at as int)));
            begin = at + 1;
        }
        at += 1;
    }
    let ghost before = names_of(out@);
    match component(path, begin, n) {
        Some(name) => {
            out.push(name);
            assert(names_of(out@) =~= before + seq![name@]);
        },
        None => {
            assert(before + Seq::<Seq<char>>::empty() =~= before);
        },
    }
    out
}

/// Names that are the same but for case are the same to every third name.
pub proof fn lemma_same_name_transfers(a: Seq<char>, b: Seq<char>, c: Seq<char>)
    requires
        same_name(a, b),
    ensures
        same_name(a, c) == same_name(b, c),
{
    if same_name(a, c) {
        assert forall|i: int| 0 <= i < b.len() implies ascii_fold(#[trigger] b[i]) == ascii_fold(
            c[i],
        ) by {
            assert(ascii_fold(a[i]) == ascii_fold(b[i]));
            assert(ascii_fold(a[i]) == ascii_fold(c[i]));
        }
    }
    if same_name(b, c) {
        assert forall|i: int| 0 <= i < a.len() implies ascii_fold(#[trigger] a[i]) == ascii_fold(
            c[i],
        ) by {
            assert(ascii_fold(a[i]) == ascii_fold(b[i]));
            assert(ascii_fold(b[i]) == ascii_fold(c[i]));
        }
    }
}

/// A field of nothing but padding trims to nothing.
pub proof fn lemma_padding_trims_to_nothing(field: Seq<u8>)
    requires
        forall|i: int| 0 <= i < field.len() ==> is_padding(#[trigger] field[i]),
    ensures
        trimmed(field).len() == 0,
    decreases field.len(),
{
    if field.len() > 0 {
        let front = field.drop_last();
        assert forall|i: int| 0 <= i < front.len() implies is_padding(#[trigger] front[i]) by {
            assert(front[i] == field[i]);
        }
        lemma_padding_trims_to_nothing(front);
    }
}

/// A short name whose extension field is nothing but padding is the base
/// alone, without a dot; with any other extension field the name has a dot
/// after the base.
pub proof fn lemma_short_name_dot(base: Seq<u8>, extension: Seq<u8>)
    ensures
        (forall|i: int| 0 <= i < extension.len() ==> is_padding(#[trigger] extension[i]))
            ==> short_name(base, extension) == utf8_lossy(trimmed(base)),
        (exists|i: int| 0 <= i < extension.len() && !is_padding(#[trigger] extension[i]))
            ==> short_name(base, extension) == utf8_lossy(trimmed(base)) + seq!['.']
            + utf8_lossy(trimmed(extension)),
{
    if forall|i: int| 0 <= i < extension.len() ==> is_padding(#[trigger] extension[i]) {
        lemma_padding_trims_to_nothing(extension);
    }
    if exists|i: int| 0 <= i < extension.len() && !is_padding(#[trigger] extension[i]) {
        let i = choose|i: int| 0 <= i < extension.len() && !is_padding(#[trigger] extension[i]);
        lemma_trimmed_keeps(extension, i);
    }
}

/// Trimming keeps everything up to the last byte that is no padding.
pub proof fn lemma_trimmed_keeps(field: Seq<u8>, i: int)
    requires
        0 <= i < field.len(),
        !is_padding(field[i]),
    ensures
        trimmed(field).len() > i,
    decreases field.len(),
{
    if is_padding(field.last()) {
        lemma_trimmed_keeps(field.drop_last(), i);
    }
}

} // verus!
