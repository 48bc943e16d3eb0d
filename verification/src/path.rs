//! Path value types.
//!
//! A path is a sequence of bytes without a NUL byte in which every
//! component, that is every maximal run of bytes without a separator, is at
//! most 255 bytes long.

use vstd::prelude::*;
use vstd::slice::slice_to_vec;
use vstd::std_specs::convert::TryFromSpecImpl;
use vstd::string::StringSliceAdditionalSpecFns;
use vstd::utf8::{decode_utf8, valid_utf8};

verus! {

/// The byte that separates the components of a path.
pub const SEPARATOR: u8 = 0x2f;

/// The greatest length of one component of a path.
pub const MAX_COMPONENT_LEN: usize = 255;

/// Why a sequence of bytes is no path.
#[derive(Clone, Copy, Debug, PartialEq, Eq, Structural)]
pub enum PathError {
    /// Path contains a component longer than 255 bytes.
    ComponentTooLong,
    /// Path contains a null byte.
    ContainsNull,
}

/// No byte of `s` from `i` up to `j` is a separator.
pub open spec fn separator_free(s: Seq<u8>, i: int, j: int) -> bool {
    forall|k: int| i <= k < j ==> s[k] != SEPARATOR
}

/// Every run of `s` without a separator is at most 255 bytes long.
pub open spec fn components_fit(s: Seq<u8>) -> bool {
    forall|i: int, j: int|
        0 <= i <= j <= s.len() && #[trigger] separator_free(s, i, j) ==> j - i
            <= MAX_COMPONENT_LEN
}

/// `s` holds no NUL byte.
pub open spec fn nul_free(s: Seq<u8>) -> bool {
    forall|k: int| 0 <= k < s.len() ==> s[k] != 0u8
}

/// What validating `s` gives: the first rule that `s` breaks, NUL bytes
/// being looked for first.
pub open spec fn validate(s: Seq<u8>) -> Result<(), PathError> {
    if !nul_free(s) {
        Err(PathError::ContainsNull)
    } else if !components_fit(s) {
        Err(PathError::ComponentTooLong)
    } else {
        Ok(())
    }
}

/// `s` is the content of a path.
pub open spec fn is_path(s: Seq<u8>) -> bool {
    validate(s) is Ok
}

/// Checks the two rules on `s`.
pub fn check_bytes(s: &[u8]) -> (r: Result<(), PathError>)
    ensures
        r == validate(s@),
{
    let n: usize = s.len();
    let mut i: usize = 0;
    while i < n
        invariant
            n == s@.len(),
            i <= n,
            forall|k: int| 0 <= k < i ==> s@[k] != 0u8,
        decreases n - i,
    {
        if s[i] == 0 {
            return Err(PathError::ContainsNull);
        }
        i += 1;
    }
    assert(nul_free(s@));
    let mut start: usize = 0;
    i = 0;
    while i < n
        invariant
            n == s@.len(),
            start <= i <= n,
            nul_free(s@),
            i - start <= MAX_COMPONENT_LEN,
            separator_free(s@, start as int, i as int),
            start == 0 || s@[start - 1] == SEPARATOR,
            forall|a: int, b: int|
                0 <= a <= b <= i && #[trigger] separator_free(s@, a, b) ==> b - a
                    <= MAX_COMPONENT_LEN,
        decreases n - i,
    {
        if s[i] == SEPARATOR {
            assert forall|a: int, b: int|
                0 <= a <= b <= i + 1 && #[trigger] separator_free(s@, a, b) implies b - a
                <= MAX_COMPONENT_LEN by {
                if b == i + 1 {
                    if a <= i {
                        assert(s@[i as int] == SEPARATOR);
                    }
                }
            }
            start = i + 1;
        } else {
            if i - start == MAX_COMPONENT_LEN {
                assert(separator_free(s@, start as int, i + 1));
                return Err(PathError::ComponentTooLong);
            }
            assert forall|a: int, b: int|
                0 <= a <= b <= i + 1 && #[trigger] separator_free(s@, a, b) implies b - a
                <= MAX_COMPONENT_LEN by {
                if b == i + 1 && a < start {
                    assert(s@[start - 1] == SEPARATOR);
                }
            }
        }
        i += 1;
    }
    Ok(())
}

/// The bytes are one component of a path: at least one byte and at most
/// 255, none of them NUL or the separator.
pub open spec fn is_component(name: Seq<u8>) -> bool {
    &&& 0 < name.len() <= MAX_COMPONENT_LEN
    &&& forall|k: int| 0 <= k < name.len() ==> name[k] != 0u8 && name[k] != SEPARATOR
}

/// The path `parent` with the component `name` after it. A separator
/// stands between the two unless `parent` ends with one.
pub open spec fn join(parent: Seq<u8>, name: Seq<u8>) -> Seq<u8> {
    if parent.len() > 0 && parent.last() == SEPARATOR {
        parent + name
    } else {
        parent + seq![SEPARATOR] + name
    }
}

/// A path with one more component is a path.
pub proof fn lemma_join_is_path(parent: Seq<u8>, name: Seq<u8>)
    requires
        is_path(parent),
        is_component(name),
    ensures
        is_path(join(parent, name)),
{
    let joined = join(parent, name);
    let cut: int = if parent.len() > 0 && parent.last() == SEPARATOR {
        parent.len() as int
    } else {
        parent.len() as int + 1
    };
    assert(joined.len() == cut + name.len());
    assert(forall|k: int| 0 <= k < parent.len() ==> joined[k] == parent[k]);
    assert(forall|k: int| cut <= k < joined.len() ==> joined[k] == name[k - cut]);
    assert(cut > 0 ==> joined[cut - 1] == SEPARATOR);
    assert(nul_free(joined)) by {
        assert forall|k: int| 0 <= k < joined.len() implies joined[k] != 0u8 by {
            if k < parent.len() {
            } else if k >= cut {
                assert(name[k - cut] != 0u8);
            }
        }
    }
    assert forall|i: int, j: int|
        0 <= i <= j <= joined.len() && #[trigger] separator_free(joined, i, j) implies j - i
        <= MAX_COMPONENT_LEN by {
        if j <= parent.len() {
            assert(separator_free(parent, i, j));
        } else if i < cut {
            assert(joined[cut - 1] == SEPARATOR);
            assert(i <= cut - 1 < j);
        }
    }
}

/// What the bytes of a path look like when they are shown: where they are
/// valid UTF-8 the text with its special characters escaped, else the
/// bytes with every byte outside printable ASCII escaped.
pub open spec fn debug_text(s: Seq<u8>) -> Seq<char> {
    if valid_utf8(s) {
        escape_debug_text(decode_utf8(s))
    } else {
        escape_ascii_text(s)
    }
}

/// The text that `str::escape_debug` gives for a text.
pub uninterp spec fn escape_debug_text(s: Seq<char>) -> Seq<char>;

/// The digit of base 16 for a number below 16, in lower case.
pub open spec fn hex_digit(d: u8) -> char {
    if d < 10 {
        (0x30 + d) as char
    } else {
        (0x61 + d - 10) as char
    }
}

/// How one byte is shown among ASCII text: tab, carriage return, line
/// feed, the two quotes and the backslash after a backslash, any other
/// printable ASCII character as it is, and any other byte as `\x` and two
/// digits of base 16.
pub open spec fn escape_ascii_byte(b: u8) -> Seq<char> {
    if b == 0x09 {
        seq!['\\', 't']
    } else if b == 0x0d {
        seq!['\\', 'r']
    } else if b == 0x0a {
        seq!['\\', 'n']
    } else if b == 0x27 {
        seq!['\\', '\'']
    } else if b == 0x22 {
        seq!['\\', '"']
    } else if b == 0x5c {
        seq!['\\', '\\']
    } else if 0x20 <= b <= 0x7e {
        seq![b as char]
    } else {
        seq!['\\', 'x', hex_digit(b / 16), hex_digit(b % 16)]
    }
}

/// How a sequence of bytes is shown as ASCII text: byte by byte.
pub open spec fn escape_ascii_text(s: Seq<u8>) -> Seq<char>
    decreases s.len(),
{
    if s.len() == 0 {
        Seq::empty()
    } else {
        escape_ascii_text(s.drop_last()) + escape_ascii_byte(s.last())
    }
}

/// `core::str::from_utf8`: a text whose bytes are the given ones, or none
/// where they are not valid UTF-8.
#[verifier::external_body]
fn str_from_utf8(bytes: &[u8]) -> (r: Option<&str>)
    ensures
        r is Some <==> valid_utf8(bytes@),
        r matches Some(s) ==> s.spec_bytes() == bytes@,
{
    core::str::from_utf8(bytes).ok()
}

/// The text that the bytes encode, or none where they are not valid
/// UTF-8.
pub fn text_of(bytes: &[u8]) -> (r: Option<&str>)
    ensures
        r is Some <==> valid_utf8(bytes@),
        r matches Some(s) ==> s@ == decode_utf8(bytes@) && s.spec_bytes() == bytes@,
{
    let r = str_from_utf8(bytes);
    proof {
        if let Some(s) = r {
            vstd::utf8::encode_utf8_decode_utf8(s@);
        }
    }
    r
}

/// `str::escape_debug`, collected into a string. Nothing is claimed of
/// the result but that it depends on the text alone.
#[verifier::external_body]
fn escape_text(s: &str) -> (r: String)
    ensures
        r@ == escape_debug_text(s@),
{
    s.escape_debug().to_string()
}

/// `<[u8]>::escape_ascii`, collected into a string: each byte is shown as
/// `core::ascii::escape_default` shows it.
#[verifier::external_body]
fn escape_bytes(bytes: &[u8]) -> (r: String)
    ensures
        r@ == escape_ascii_text(bytes@),
{
    bytes.escape_ascii().to_string()
}

/// Shows bytes as text.
pub fn debug_string_of(bytes: &[u8]) -> (r: String)
    ensures
        r@ == debug_text(bytes@),
{
    match text_of(bytes) {
        Some(s) => escape_text(s),
        None => escape_bytes(bytes),
    }
}

/// A borrowed path.
#[derive(Clone, Copy, Debug, PartialEq, Eq, PartialOrd, Ord, Hash)]
pub struct Path<'a>(&'a [u8]);

impl<'a> View for Path<'a> {
    type V = Seq<u8>;

    closed spec fn view(&self) -> Seq<u8> {
        self.0@
    }
}

impl<'a> Path<'a> {
    #[verifier::type_invariant]
    spec fn inv(self) -> bool {
        is_path(self.0@)
    }

    /// The byte that separates the components of a path.
    pub const SEPARATOR: u8 = 0x2f;

    /// The path of the root directory: one separator.
    pub fn root() -> (r: Path<'static>)
        ensures
            r@ == seq![SEPARATOR],
    {
        let text: &'static str = "/";
        proof {
            reveal_strlit("/");
            vstd::string::is_ascii_spec_bytes(text);
            assert(text.spec_bytes() =~= seq![SEPARATOR]);
            assert(separator_free(seq![SEPARATOR], 0, 0));
            assert forall|i: int, j: int|
                0 <= i <= j <= 1 && #[trigger] separator_free(seq![SEPARATOR], i, j) implies j - i
                <= MAX_COMPONENT_LEN by {}
        }
        Path(text.as_bytes())
    }

    /// Creates a path from bytes that obey the two rules.
    pub fn new(p: &'a [u8]) -> (r: Self)
        requires
            is_path(p@),
        ensures
            r@ == p@,
    {
        Path(p)
    }

    /// The bytes of the path.
    pub fn as_bytes(&self) -> (r: &'a [u8])
        ensures
            r@ == self@,
            is_path(r@),
    {
        proof {
            use_type_invariant(self);
        }
        self.0
    }

    /// Whether the path starts with the separator.
    pub fn is_absolute(&self) -> (r: bool)
        ensures
            r == (self@.len() > 0 && self@[0] == SEPARATOR),
    {
        self.0.len() > 0 && self.0[0] == SEPARATOR
    }

    /// An owned copy of the path.
    pub fn to_path_buf(&self) -> (r: PathBuf)
        ensures
            r@ == self@,
    {
        proof {
            use_type_invariant(self);
        }
        PathBuf(slice_to_vec(self.0))
    }

    /// The path with one more component.
    pub fn join(&self, name: &[u8]) -> (r: PathBuf)
        requires
            is_component(name@),
        ensures
            r@ == join(self@, name@),
    {
        proof {
            use_type_invariant(self);
            lemma_join_is_path(self@, name@);
        }
        let mut bytes: Vec<u8> = slice_to_vec(self.0);
        let n: usize = bytes.len();
        if !(n > 0 && bytes[n - 1] == SEPARATOR) {
            bytes.push(SEPARATOR);
        }
        bytes.extend_from_slice(name);
        assert(bytes@ =~= join(self@, name@));
        PathBuf(bytes)
    }

    /// The path as text, for messages.
    pub fn debug_string(&self) -> (r: String)
        ensures
            r@ == debug_text(self@),
    {
        debug_string_of(self.0)
    }
}

impl<'a> TryFrom<&'a [u8]> for Path<'a> {
    type Error = PathError;

    /// Makes a path of bytes that obey the two rules, and says which rule
    /// the others break.
    fn try_from(s: &'a [u8]) -> (r: Result<Self, PathError>)
        ensures
            match r {
                Ok(p) => validate(s@) is Ok && p@ == s@,
                Err(e) => validate(s@) == Err::<(), PathError>(e),
            },
    {
        match check_bytes(s) {
            Ok(()) => Ok(Path(s)),
            Err(e) => Err(e),
        }
    }
}

impl<'a> TryFromSpecImpl<&'a [u8]> for Path<'a> {
    open spec fn obeys_try_from_spec() -> bool {
        true
    }

    closed spec fn try_from_spec(v: &'a [u8]) -> Result<Self, PathError> {
        match validate(v@) {
            Ok(()) => Ok(Path(v)),
            Err(e) => Err(e),
        }
    }
}

impl<'a, const N: usize> TryFrom<&'a [u8; N]> for Path<'a> {
    type Error = PathError;

    /// Makes a path of the bytes of an array.
    fn try_from(a: &'a [u8; N]) -> (r: Result<Self, PathError>)
        ensures
            match r {
                Ok(p) => validate(a@) is Ok && p@ == a@,
                Err(e) => validate(a@) == Err::<(), PathError>(e),
            },
    {
        match check_bytes(a.as_slice()) {
            Ok(()) => Ok(Path(a.as_slice())),
            Err(e) => Err(e),
        }
    }
}

impl<'a, const N: usize> TryFromSpecImpl<&'a [u8; N]> for Path<'a> {
    open spec fn obeys_try_from_spec() -> bool {
        false
    }

    closed spec fn try_from_spec(v: &'a [u8; N]) -> Result<Self, PathError> {
        Err(PathError::ContainsNull)
    }
}

impl<'a> TryFrom<&'a str> for Path<'a> {
    type Error = PathError;

    /// Makes a path of the bytes of a text.
    fn try_from(s: &'a str) -> (r: Result<Self, PathError>)
        ensures
            match r {
                Ok(p) => validate(s.spec_bytes()) is Ok && p@ == s.spec_bytes(),
                Err(e) => validate(s.spec_bytes()) == Err::<(), PathError>(e),
            },
    {
        match check_bytes(s.as_bytes()) {
            Ok(()) => Ok(Path(s.as_bytes())),
            Err(e) => Err(e),
        }
    }
}

impl<'a> TryFromSpecImpl<&'a str> for Path<'a> {
    open spec fn obeys_try_from_spec() -> bool {
        false
    }

    closed spec fn try_from_spec(v: &'a str) -> Result<Self, PathError> {
        Err(PathError::ContainsNull)
    }
}

/// An owned path.
#[derive(Debug, PartialEq, Eq, PartialOrd, Ord, Hash)]
pub struct PathBuf(Vec<u8>);

impl Clone for PathBuf {
    fn clone(&self) -> (r: Self)
        ensures
            r@ == self@,
    {
        proof {
            use_type_invariant(self);
        }
        PathBuf(slice_to_vec(self.0.as_slice()))
    }
}

impl View for PathBuf {
    type V = Seq<u8>;

    closed spec fn view(&self) -> Seq<u8> {
        self.0@
    }
}

impl PathBuf {
    #[verifier::type_invariant]
    spec fn inv(self) -> bool {
        is_path(self.0@)
    }

    /// Creates a path from bytes that obey the two rules.
    pub fn new(p: &[u8]) -> (r: Self)
        requires
            is_path(p@),
        ensures
            r@ == p@,
    {
        PathBuf(slice_to_vec(p))
    }

    /// Borrows the path.
    pub fn as_path(&self) -> (r: Path<'_>)
        ensures
            r@ == self@,
    {
        proof {
            use_type_invariant(self);
        }
        Path(self.0.as_slice())
    }

    /// The bytes of the path.
    pub fn as_bytes(&self) -> (r: &[u8])
        ensures
            r@ == self@,
            is_path(r@),
    {
        proof {
            use_type_invariant(self);
        }
        self.0.as_slice()
    }

    /// The path as text, for messages.
    pub fn debug_string(&self) -> (r: String)
        ensures
            r@ == debug_text(self@),
    {
        debug_string_of(self.0.as_slice())
    }
}

impl TryFrom<Vec<u8>> for PathBuf {
    type Error = PathError;

    /// Makes a path of bytes that obey the two rules, and says which rule
    /// the others break.
    fn try_from(s: Vec<u8>) -> (r: Result<Self, PathError>)
        ensures
            match r {
                Ok(p) => validate(s@) is Ok && p@ == s@,
                Err(e) => validate(s@) == Err::<(), PathError>(e),
            },
    {
        match check_bytes(s.as_slice()) {
            Ok(()) => Ok(PathBuf(s)),
            Err(e) => Err(e),
        }
    }
}

impl TryFromSpecImpl<Vec<u8>> for PathBuf {
    open spec fn obeys_try_from_spec() -> bool {
        true
    }

    closed spec fn try_from_spec(v: Vec<u8>) -> Result<Self, PathError> {
        match validate(v@) {
            Ok(()) => Ok(PathBuf(v)),
            Err(e) => Err(e),
        }
    }
}

impl TryFrom<&[u8]> for PathBuf {
    type Error = PathError;

    /// Makes a path of a copy of the bytes.
    fn try_from(s: &[u8]) -> (r: Result<Self, PathError>)
        ensures
            match r {
                Ok(p) => validate(s@) is Ok && p@ == s@,
                Err(e) => validate(s@) == Err::<(), PathError>(e),
            },
    {
        match check_bytes(s) {
            Ok(()) => Ok(PathBuf(slice_to_vec(s))),
            Err(e) => Err(e),
        }
    }
}

impl TryFromSpecImpl<&[u8]> for PathBuf {
    open spec fn obeys_try_from_spec() -> bool {
        false
    }

    closed spec fn try_from_spec(v: &[u8]) -> Result<Self, PathError> {
        Err(PathError::ContainsNull)
    }
}

impl<const N: usize> TryFrom<&[u8; N]> for PathBuf {
    type Error = PathError;

    /// Makes a path of a copy of the bytes of an array.
    fn try_from(a: &[u8; N]) -> (r: Result<Self, PathError>)
        ensures
            match r {
                Ok(p) => validate(a@) is Ok && p@ == a@,
                Err(e) => validate(a@) == Err::<(), PathError>(e),
            },
    {
        match check_bytes(a.as_slice()) {
            Ok(()) => Ok(PathBuf(slice_to_vec(a.as_slice()))),
            Err(e) => Err(e),
        }
    }
}

impl<const N: usize> TryFromSpecImpl<&[u8; N]> for PathBuf {
    open spec fn obeys_try_from_spec() -> bool {
        false
    }

    closed spec fn try_from_spec(v: &[u8; N]) -> Result<Self, PathError> {
        Err(PathError::ContainsNull)
    }
}

impl TryFrom<&str> for PathBuf {
    type Error = PathError;

    /// Makes a path of a copy of the bytes of a text.
    fn try_from(s: &str) -> (r: Result<Self, PathError>)
        ensures
            match r {
                Ok(p) => validate(s.spec_bytes()) is Ok && p@ == s.spec_bytes(),
                Err(e) => validate(s.spec_bytes()) == Err::<(), PathError>(e),
            },
    {
        match check_bytes(s.as_bytes()) {
            Ok(()) => Ok(PathBuf(slice_to_vec(s.as_bytes()))),
            Err(e) => Err(e),
        }
    }
}

impl TryFromSpecImpl<&str> for PathBuf {
    open spec fn obeys_try_from_spec() -> bool {
        false
    }

    closed spec fn try_from_spec(v: &str) -> Result<Self, PathError> {
        Err(PathError::ContainsNull)
    }
}

} // verus!
