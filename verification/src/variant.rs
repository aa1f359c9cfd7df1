//! Typed argument values.
//!
//! [`VariantFlag`] is an immutable set of the value representations a single
//! argument is allowed to take; the empty set is the *unit* constraint, a
//! flag whose presence alone is its value.  [`Variant`] is a resolved value
//! in exactly one representation.  [`Token`] is one raw argument string
//! together with the two readings of it that only the embedding application
//! can supply: its 32-bit floating-point interpretation and the network
//! address it resolves to.

use vstd::prelude::*;
use vstd::string::StrSliceExecFns;
use vstd::string::StringExecFns;

use crate::text::{cmp_str, parse_i32, spec_cmp_chars, spec_parse_i32, str_eq};

verus! {

use core::cmp::Ordering;

/// A resolved network address: an IPv4 or IPv6 address with a port.
#[derive(Clone, Copy, PartialEq, Eq, Structural, Debug, Hash)]
pub enum SocketAddress {
    V4 { o0: u8, o1: u8, o2: u8, o3: u8, port: u16 },
    V6 { g0: u16, g1: u16, g2: u16, g3: u16, g4: u16, g5: u16, g6: u16, g7: u16, port: u16 },
}

/// Three-way comparison of two mathematical integers.
pub open spec fn spec_cmp_int(a: int, b: int) -> Ordering {
    if a < b {
        Ordering::Less
    } else if a == b {
        Ordering::Equal
    } else {
        Ordering::Greater
    }
}

/// The second comparison decides only when the first is a tie.
pub open spec fn spec_lex(first: Ordering, second: Ordering) -> Ordering {
    if first == Ordering::Equal {
        second
    } else {
        first
    }
}

/// Socket addresses order by address first, then port; every IPv4 address
/// comes before every IPv6 address.
pub open spec fn spec_cmp_socket(x: SocketAddress, y: SocketAddress) -> Ordering {
    match (x, y) {
        (SocketAddress::V4 { o0, o1, o2, o3, port }, SocketAddress::V4 {
            o0: p0,
            o1: p1,
            o2: p2,
            o3: p3,
            port: q,
        }) => spec_lex(
            spec_cmp_int(o0 as int, p0 as int),
            spec_lex(
                spec_cmp_int(o1 as int, p1 as int),
                spec_lex(
                    spec_cmp_int(o2 as int, p2 as int),
                    spec_lex(
                        spec_cmp_int(o3 as int, p3 as int),
                        spec_cmp_int(port as int, q as int),
                    ),
                ),
            ),
        ),
        (SocketAddress::V4 { .. }, SocketAddress::V6 { .. }) => Ordering::Less,
        (SocketAddress::V6 { .. }, SocketAddress::V4 { .. }) => Ordering::Greater,
        (SocketAddress::V6 { g0, g1, g2, g3, g4, g5, g6, g7, port }, SocketAddress::V6 {
            g0: h0,
            g1: h1,
            g2: h2,
            g3: h3,
            g4: h4,
            g5: h5,
            g6: h6,
            g7: h7,
            port: q,
        }) => spec_lex(
            spec_cmp_int(g0 as int, h0 as int),
            spec_lex(
                spec_cmp_int(g1 as int, h1 as int),
                spec_lex(
                    spec_cmp_int(g2 as int, h2 as int),
                    spec_lex(
                        spec_cmp_int(g3 as int, h3 as int),
                        spec_lex(
                            spec_cmp_int(g4 as int, h4 as int),
                            spec_lex(
                                spec_cmp_int(g5 as int, h5 as int),
                                spec_lex(
                                    spec_cmp_int(g6 as int, h6 as int),
                                    spec_lex(
                                        spec_cmp_int(g7 as int, h7 as int),
                                        spec_cmp_int(port as int, q as int),
                                    ),
                                ),
                            ),
                        ),
                    ),
                ),
            ),
        ),
    }
}

fn cmp_u16(a: u16, b: u16) -> (r: Ordering)
    ensures
        r == spec_cmp_int(a as int, b as int),
{
    if a < b {
        Ordering::Less
    } else if a == b {
        Ordering::Equal
    } else {
        Ordering::Greater
    }
}

fn cmp_u8(a: u8, b: u8) -> (r: Ordering)
    ensures
        r == spec_cmp_int(a as int, b as int),
{
    if a < b {
        Ordering::Less
    } else if a == b {
        Ordering::Equal
    } else {
        Ordering::Greater
    }
}

fn cmp_i32(a: i32, b: i32) -> (r: Ordering)
    ensures
        r == spec_cmp_int(a as int, b as int),
{
    if a < b {
        Ordering::Less
    } else if a == b {
        Ordering::Equal
    } else {
        Ordering::Greater
    }
}

fn cmp_u32(a: u32, b: u32) -> (r: Ordering)
    ensures
        r == spec_cmp_int(a as int, b as int),
{
    if a < b {
        Ordering::Less
    } else if a == b {
        Ordering::Equal
    } else {
        Ordering::Greater
    }
}

fn lex_then(first: Ordering, second: Ordering) -> (r: Ordering)
    ensures
        r == spec_lex(first, second),
{
    match first {
        Ordering::Equal => second,
        _ => first,
    }
}

fn cmp_socket(x: &SocketAddress, y: &SocketAddress) -> (r: Ordering)
    ensures
        r == spec_cmp_socket(*x, *y),
{
    match (x, y) {
        (
            SocketAddress::V4 { o0, o1, o2, o3, port },
            SocketAddress::V4 { o0: p0, o1: p1, o2: p2, o3: p3, port: q },
        ) => lex_then(
            cmp_u8(*o0, *p0),
            lex_then(
                cmp_u8(*o1, *p1),
                lex_then(cmp_u8(*o2, *p2), lex_then(cmp_u8(*o3, *p3), cmp_u16(*port, *q))),
            ),
        ),
        (SocketAddress::V4 { .. }, SocketAddress::V6 { .. }) => Ordering::Less,
        (SocketAddress::V6 { .. }, SocketAddress::V4 { .. }) => Ordering::Greater,
        (
            SocketAddress::V6 { g0, g1, g2, g3, g4, g5, g6, g7, port },
            SocketAddress::V6 {
                g0: h0,
                g1: h1,
                g2: h2,
                g3: h3,
                g4: h4,
                g5: h5,
                g6: h6,
                g7: h7,
                port: q,
            },
        ) => lex_then(
            cmp_u16(*g0, *h0),
            lex_then(
                cmp_u16(*g1, *h1),
                lex_then(
                    cmp_u16(*g2, *h2),
                    lex_then(
                        cmp_u16(*g3, *h3),
                        lex_then(
                            cmp_u16(*g4, *h4),
                            lex_then(
                                cmp_u16(*g5, *h5),
                                lex_then(
                                    cmp_u16(*g6, *h6),
                                    lex_then(cmp_u16(*g7, *h7), cmp_u16(*port, *q)),
                                ),
                            ),
                        ),
                    ),
                ),
            ),
        ),
    }
}

/// The key under which 32-bit floating-point bit patterns order totally:
/// negative values (sign bit set) order by descending bit pattern below
/// all non-negative values, which order by ascending bit pattern.
/// This is the standard total order on floating-point values, under which
/// comparison is always defined.
pub open spec fn spec_float_key(bits: u32) -> int {
    if bits >= 0x8000_0000 {
        0xFFFF_FFFFu32 - bits
    } else {
        bits + 0x8000_0000
    }
}

fn float_key(bits: u32) -> (r: u32)
    ensures
        r as int == spec_float_key(bits),
{
    if bits >= 0x8000_0000 {
        0xFFFF_FFFFu32 - bits
    } else {
        bits + 0x8000_0000
    }
}

/// A value of a particular representation.
///
/// Floating-point values are carried as their IEEE 754 binary32 bit
/// pattern, which fixes their identity and their total order exactly;
/// the embedding application converts to and from the machine type.
/// Paths are raw text, unchecked against any filesystem.
#[derive(Clone, Debug)]
pub enum Variant {
    Bool(bool),
    Int(i32),
    Float(u32),
    Socket(SocketAddress),
    Path(String),
    Text(String),
}

/// Mathematical model of a [`Variant`]: text fields become character
/// sequences.
#[allow(inconsistent_fields)]
pub ghost enum VariantView {
    Bool { value: bool },
    Int { value: i32 },
    Float { bits: u32 },
    Socket { address: SocketAddress },
    Path { text: Seq<char> },
    Text { text: Seq<char> },
}

impl View for Variant {
    type V = VariantView;

    open spec fn view(&self) -> VariantView {
        match self {
            Variant::Bool(value) => VariantView::Bool { value: *value },
            Variant::Int(value) => VariantView::Int { value: *value },
            Variant::Float(bits) => VariantView::Float { bits: *bits },
            Variant::Socket(address) => VariantView::Socket { address: *address },
            Variant::Path(text) => VariantView::Path { text: text@ },
            Variant::Text(text) => VariantView::Text { text: text@ },
        }
    }
}

/// The position of a value's representation in the fixed precedence order
/// Bool, Int, Float, Socket, Path, Text.
pub open spec fn spec_rank(v: VariantView) -> int {
    match v {
        VariantView::Bool { .. } => 0,
        VariantView::Int { .. } => 1,
        VariantView::Float { .. } => 2,
        VariantView::Socket { .. } => 3,
        VariantView::Path { .. } => 4,
        VariantView::Text { .. } => 5,
    }
}

/// Three-way comparison of two booleans: false orders before true.
pub open spec fn spec_cmp_bool(a: bool, b: bool) -> Ordering {
    if a == b {
        Ordering::Equal
    } else if b {
        Ordering::Less
    } else {
        Ordering::Greater
    }
}

/// The total order on values: representations order by their precedence
/// rank; two values of the same representation order by that
/// representation's natural order.
pub open spec fn spec_variant_cmp(x: VariantView, y: VariantView) -> Ordering {
    if spec_rank(x) != spec_rank(y) {
        spec_cmp_int(spec_rank(x), spec_rank(y))
    } else {
        match (x, y) {
            (VariantView::Bool { value: a }, VariantView::Bool { value: b }) => spec_cmp_bool(a, b),
            (VariantView::Int { value: a }, VariantView::Int { value: b }) => spec_cmp_int(
                a as int,
                b as int,
            ),
            (VariantView::Float { bits: a }, VariantView::Float { bits: b }) => spec_cmp_int(
                spec_float_key(a),
                spec_float_key(b),
            ),
            (VariantView::Socket { address: a }, VariantView::Socket { address: b }) =>
                spec_cmp_socket(a, b),
            (VariantView::Path { text: a }, VariantView::Path { text: b }) => spec_cmp_chars(a, b),
            (VariantView::Text { text: a }, VariantView::Text { text: b }) => spec_cmp_chars(a, b),
            _ => Ordering::Equal,
        }
    }
}

impl Variant {
    fn rank(&self) -> (r: u8)
        ensures
            r as int == spec_rank(self@),
    {
        match self {
            Variant::Bool(_) => 0,
            Variant::Int(_) => 1,
            Variant::Float(_) => 2,
            Variant::Socket(_) => 3,
            Variant::Path(_) => 4,
            Variant::Text(_) => 5,
        }
    }

    /// Orders values by representation precedence first, then by the
    /// representation's natural order.
    pub fn total_cmp(&self, other: &Variant) -> (r: Ordering)
        ensures
            r == spec_variant_cmp(self@, other@),
    {
        let ra = self.rank();
        let rb = other.rank();
        if ra < rb {
            return Ordering::Less;
        }
        if rb < ra {
            return Ordering::Greater;
        }
        match (self, other) {
            (Variant::Bool(a), Variant::Bool(b)) => {
                if *a == *b {
                    Ordering::Equal
                } else if *b {
                    Ordering::Less
                } else {
                    Ordering::Greater
                }
            },
            (Variant::Int(a), Variant::Int(b)) => cmp_i32(*a, *b),
            (Variant::Float(a), Variant::Float(b)) => cmp_u32(float_key(*a), float_key(*b)),
            (Variant::Socket(a), Variant::Socket(b)) => cmp_socket(a, b),
            (Variant::Path(a), Variant::Path(b)) => cmp_str(a.as_str(), b.as_str()),
            (Variant::Text(a), Variant::Text(b)) => cmp_str(a.as_str(), b.as_str()),
            _ => Ordering::Equal,
        }
    }

    /// The boolean inside, if this value is a boolean.
    pub fn as_bool(&self) -> (r: Option<bool>)
        ensures
            r == (match self@ {
                VariantView::Bool { value } => Some(value),
                _ => None::<bool>,
            }),
    {
        if let Variant::Bool(b) = self {
            Some(*b)
        } else {
            None
        }
    }

    /// The integer inside, if this value is an integer.
    pub fn as_int(&self) -> (r: Option<i32>)
        ensures
            r == (match self@ {
                VariantView::Int { value } => Some(value),
                _ => None::<i32>,
            }),
    {
        if let Variant::Int(i) = self {
            Some(*i)
        } else {
            None
        }
    }

    /// The floating-point bit pattern inside, if this value is a float.
    pub fn as_float_bits(&self) -> (r: Option<u32>)
        ensures
            r == (match self@ {
                VariantView::Float { bits } => Some(bits),
                _ => None::<u32>,
            }),
    {
        if let Variant::Float(bits) = self {
            Some(*bits)
        } else {
            None
        }
    }

    /// The network address inside, if this value is a socket address.
    pub fn as_socket(&self) -> (r: Option<SocketAddress>)
        ensures
            r == (match self@ {
                VariantView::Socket { address } => Some(address),
                _ => None::<SocketAddress>,
            }),
    {
        if let Variant::Socket(s) = self {
            Some(*s)
        } else {
            None
        }
    }

    /// The path text inside, if this value is a path.
    pub fn as_path(&self) -> (r: Option<&String>)
        ensures
            (match self@ {
                VariantView::Path { text } => r matches Some(p) && p@ == text,
                _ => r is None,
            }),
    {
        if let Variant::Path(p) = self {
            Some(p)
        } else {
            None
        }
    }

    /// The path text inside, consumed, if this value is a path.
    pub fn into_path(self) -> (r: Option<String>)
        ensures
            (match self@ {
                VariantView::Path { text } => r matches Some(p) && p@ == text,
                _ => r is None,
            }),
    {
        if let Variant::Path(p) = self {
            Some(p)
        } else {
            None
        }
    }

    /// The text inside, if this value is plain text.
    pub fn as_string(&self) -> (r: Option<&str>)
        ensures
            (match self@ {
                VariantView::Text { text } => r matches Some(s) && s@ == text,
                _ => r is None,
            }),
    {
        if let Variant::Text(s) = self {
            Some(s.as_str())
        } else {
            None
        }
    }

    /// The text inside, consumed, if this value is plain text.
    pub fn into_string(self) -> (r: Option<String>)
        ensures
            (match self@ {
                VariantView::Text { text } => r matches Some(s) && s@ == text,
                _ => r is None,
            }),
    {
        if let Variant::Text(s) = self {
            Some(s)
        } else {
            None
        }
    }
}

/// One raw argument string, together with the two readings of it that the
/// library takes as given rather than computing itself.
///
/// `float_bits` is the IEEE 754 binary32 bit pattern the text denotes as a
/// 32-bit floating-point literal, if it denotes one; the embedding
/// application obtains it from the platform's floating-point parser.
/// `socket` is the first network address the text resolves to, if it
/// resolves to any; resolution may perform a blocking name lookup, an
/// effect that stays outside this library.  A token whose readings are
/// absent simply never resolves as a float or a socket address.
pub struct Token {
    pub text: String,
    pub float_bits: Option<u32>,
    pub socket: Option<SocketAddress>,
}

/// Mathematical model of a [`Token`].
pub ghost struct TokenModel {
    pub text: Seq<char>,
    pub float_bits: Option<u32>,
    pub socket: Option<SocketAddress>,
}

impl View for Token {
    type V = TokenModel;

    open spec fn view(&self) -> TokenModel {
        TokenModel { text: self.text@, float_bits: self.float_bits, socket: self.socket }
    }
}

/// The set of representations an argument is allowed to resolve to.
/// The empty set is the unit constraint: the argument carries no value and
/// its presence alone yields `true`.
#[derive(Clone, Copy, PartialEq, Eq, Structural, Debug, Hash)]
pub struct VariantFlag {
    bool_ok: bool,
    int_ok: bool,
    float_ok: bool,
    socket_ok: bool,
    path_ok: bool,
    string_ok: bool,
}

impl VariantFlag {
    /// Membership of the boolean representation in the allowed set.
    pub closed spec fn allows_bool(&self) -> bool {
        self.bool_ok
    }

    /// Membership of the integer representation in the allowed set.
    pub closed spec fn allows_int(&self) -> bool {
        self.int_ok
    }

    /// Membership of the floating-point representation in the allowed set.
    pub closed spec fn allows_float(&self) -> bool {
        self.float_ok
    }

    /// Membership of the socket-address representation in the allowed set.
    pub closed spec fn allows_socket(&self) -> bool {
        self.socket_ok
    }

    /// Membership of the path representation in the allowed set.
    pub closed spec fn allows_path(&self) -> bool {
        self.path_ok
    }

    /// Membership of the plain-text representation in the allowed set.
    pub closed spec fn allows_string(&self) -> bool {
        self.string_ok
    }

    /// The allowed set is empty: presence-only flag.
    pub open spec fn spec_is_unit(&self) -> bool {
        !self.allows_bool() && !self.allows_int() && !self.allows_float() && !self.allows_socket()
            && !self.allows_path() && !self.allows_string()
    }

    /// The argument doesn't have a value; it is either present or not.
    /// If present, its value is `Variant::Bool(true)`.
    pub fn new_unit() -> (r: VariantFlag)
        ensures
            r.spec_is_unit(),
    {
        VariantFlag {
            bool_ok: false,
            int_ok: false,
            float_ok: false,
            socket_ok: false,
            path_ok: false,
            string_ok: false,
        }
    }

    /// An argument with this constraint will only become a boolean.
    /// Booleans are parsed exclusively from `true` and `false`.
    pub fn bool() -> (r: VariantFlag)
        ensures
            r.allows_bool(),
            !r.allows_int(),
            !r.allows_float(),
            !r.allows_socket(),
            !r.allows_path(),
            !r.allows_string(),
    {
        VariantFlag { bool_ok: true, ..VariantFlag::new_unit() }
    }

    /// Adds the boolean representation to the allowed set.
    /// Supports method chaining.
    pub fn or_bool(self) -> (r: VariantFlag)
        ensures
            r.allows_bool(),
            r.allows_int() == self.allows_int(),
            r.allows_float() == self.allows_float(),
            r.allows_socket() == self.allows_socket(),
            r.allows_path() == self.allows_path(),
            r.allows_string() == self.allows_string(),
    {
        VariantFlag { bool_ok: true, ..self }
    }

    /// An argument with this constraint will only become a 32-bit integer.
    pub fn new_int() -> (r: VariantFlag)
        ensures
            r.allows_int(),
            !r.allows_bool(),
            !r.allows_float(),
            !r.allows_socket(),
            !r.allows_path(),
            !r.allows_string(),
    {
        VariantFlag { int_ok: true, ..VariantFlag::new_unit() }
    }

    /// Adds the integer representation to the allowed set.
    /// Supports method chaining.
    pub fn or_int(self) -> (r: VariantFlag)
        ensures
            r.allows_int(),
            r.allows_bool() == self.allows_bool(),
            r.allows_float() == self.allows_float(),
            r.allows_socket() == self.allows_socket(),
            r.allows_path() == self.allows_path(),
            r.allows_string() == self.allows_string(),
    {
        VariantFlag { int_ok: true, ..self }
    }

    /// An argument with this constraint will only become a 32-bit float.
    pub fn float() -> (r: VariantFlag)
        ensures
            r.allows_float(),
            !r.allows_bool(),
            !r.allows_int(),
            !r.allows_socket(),
            !r.allows_path(),
            !r.allows_string(),
    {
        VariantFlag { float_ok: true, ..VariantFlag::new_unit() }
    }

    /// An argument with this constraint will only become a socket address.
    pub fn socket() -> (r: VariantFlag)
        ensures
            r.allows_socket(),
            !r.allows_bool(),
            !r.allows_int(),
            !r.allows_float(),
            !r.allows_path(),
            !r.allows_string(),
    {
        VariantFlag { socket_ok: true, ..VariantFlag::new_unit() }
    }

    /// Adds the socket-address representation to the allowed set.
    /// Supports method chaining.
    pub fn or_socket(self) -> (r: VariantFlag)
        ensures
            r.allows_socket(),
            r.allows_bool() == self.allows_bool(),
            r.allows_int() == self.allows_int(),
            r.allows_float() == self.allows_float(),
            r.allows_path() == self.allows_path(),
            r.allows_string() == self.allows_string(),
    {
        VariantFlag { socket_ok: true, ..self }
    }

    /// An argument with this constraint will only become a path.
    /// This conversion never fails, but the path may point at nothing
    /// meaningful.
    pub fn path() -> (r: VariantFlag)
        ensures
            r.allows_path(),
            !r.allows_bool(),
            !r.allows_int(),
            !r.allows_float(),
            !r.allows_socket(),
            !r.allows_string(),
    {
        VariantFlag { path_ok: true, ..VariantFlag::new_unit() }
    }

    /// Adds the path representation to the allowed set.
    /// Supports method chaining.
    pub fn or_path(self) -> (r: VariantFlag)
        ensures
            r.allows_path(),
            r.allows_bool() == self.allows_bool(),
            r.allows_int() == self.allows_int(),
            r.allows_float() == self.allows_float(),
            r.allows_socket() == self.allows_socket(),
            r.allows_string() == self.allows_string(),
    {
        VariantFlag { path_ok: true, ..self }
    }

    /// An argument with this constraint is passed through as plain text.
    /// This conversion never fails.
    pub fn string() -> (r: VariantFlag)
        ensures
            r.allows_string(),
            !r.allows_bool(),
            !r.allows_int(),
            !r.allows_float(),
            !r.allows_socket(),
            !r.allows_path(),
    {
        VariantFlag { string_ok: true, ..VariantFlag::new_unit() }
    }

    /// Adds the plain-text representation to the allowed set.
    /// Supports method chaining.
    pub fn or_string(self) -> (r: VariantFlag)
        ensures
            r.allows_string(),
            r.allows_bool() == self.allows_bool(),
            r.allows_int() == self.allows_int(),
            r.allows_float() == self.allows_float(),
            r.allows_socket() == self.allows_socket(),
            r.allows_path() == self.allows_path(),
    {
        VariantFlag { string_ok: true, ..self }
    }

    /// The boolean representation is allowed.
    pub fn bool_allowed(&self) -> (r: bool)
        ensures
            r == self.allows_bool(),
    {
        self.bool_ok
    }

    /// The integer representation is allowed.
    pub fn int_allowed(&self) -> (r: bool)
        ensures
            r == self.allows_int(),
    {
        self.int_ok
    }

    /// The floating-point representation is allowed.
    pub fn float_allowed(&self) -> (r: bool)
        ensures
            r == self.allows_float(),
    {
        self.float_ok
    }

    /// The socket-address representation is allowed.
    pub fn socket_allowed(&self) -> (r: bool)
        ensures
            r == self.allows_socket(),
    {
        self.socket_ok
    }

    /// The path representation is allowed.
    pub fn path_allowed(&self) -> (r: bool)
        ensures
            r == self.allows_path(),
    {
        self.path_ok
    }

    /// The plain-text representation is allowed.
    pub fn string_allowed(&self) -> (r: bool)
        ensures
            r == self.allows_string(),
    {
        self.string_ok
    }

    /// The allowed set is empty.
    pub fn is_unit(&self) -> (r: bool)
        ensures
            r == self.spec_is_unit(),
    {
        !self.bool_ok && !self.int_ok && !self.float_ok && !self.socket_ok && !self.path_ok
            && !self.string_ok
    }

    /// Parse a token into one of the representations this constraint
    /// allows.  The precedence is boolean, integer, float, socket address,
    /// path, and lastly plain text.
    pub fn parse(&self, token: &Token) -> (r: Option<Variant>)
        ensures
            (match r {
                Some(v) => spec_parse(*self, token@) == Some(v@),
                None => spec_parse(*self, token@) is None,
            }),
    {
        proof {
            reveal_strlit("true");
            reveal_strlit("false");
        }
        if self.bool_allowed() {
            if str_eq(token.text.as_str(), "true") {
                return Some(Variant::Bool(true));
            }
            if str_eq(token.text.as_str(), "false") {
                return Some(Variant::Bool(false));
            }
        }
        if self.int_allowed() {
            if let Some(i) = parse_i32(token.text.as_str()) {
                return Some(Variant::Int(i));
            }
        }
        if self.float_allowed() {
            if let Some(bits) = token.float_bits {
                return Some(Variant::Float(bits));
            }
        }
        if self.socket_allowed() {
            if let Some(address) = token.socket {
                return Some(Variant::Socket(address));
            }
        }
        if self.path_allowed() {
            return Some(Variant::Path(token.text.clone()));
        }
        if self.string_allowed() {
            return Some(Variant::Text(token.text.clone()));
        }
        None
    }
}

/// The names of the allowed representations, in precedence order.
pub open spec fn spec_allowed_names(f: VariantFlag) -> Seq<Seq<char>> {
    (if f.allows_bool() {
        seq!["bool"@]
    } else {
        Seq::empty()
    }) + (if f.allows_int() {
        seq!["int"@]
    } else {
        Seq::empty()
    }) + (if f.allows_float() {
        seq!["float"@]
    } else {
        Seq::empty()
    }) + (if f.allows_socket() {
        seq!["socket"@]
    } else {
        Seq::empty()
    }) + (if f.allows_path() {
        seq!["path"@]
    } else {
        Seq::empty()
    }) + (if f.allows_string() {
        seq!["string"@]
    } else {
        Seq::empty()
    })
}

/// Parts joined with a bar between each pair of neighbours.
pub open spec fn spec_join_bar(parts: Seq<Seq<char>>) -> Seq<char>
    decreases parts.len(),
{
    if parts.len() == 0 {
        Seq::empty()
    } else if parts.len() == 1 {
        parts[0]
    } else {
        spec_join_bar(parts.drop_last()) + "|"@ + parts.last()
    }
}

/// The textual form of a constraint: `flag` for the unit constraint, else
/// the names of the allowed representations joined by bars.
pub open spec fn spec_describe(f: VariantFlag) -> Seq<char> {
    if f.spec_is_unit() {
        "flag"@
    } else {
        spec_join_bar(spec_allowed_names(f))
    }
}

impl VariantFlag {
    /// Renders the constraint for a reader: `flag` for the unit
    /// constraint, else the allowed representations joined by bars,
    /// such as `bool|int`.
    #[verifier::rlimit(60)]
    pub fn describe(&self) -> (r: String)
        ensures
            r@ == spec_describe(*self),
    {
        if self.is_unit() {
            return String::from_str("flag");
        }
        let mut parts: Vec<&'static str> = Vec::new();
        if self.bool_allowed() {
            parts.push("bool");
        }
        if self.int_allowed() {
            parts.push("int");
        }
        if self.float_allowed() {
            parts.push("float");
        }
        if self.socket_allowed() {
            parts.push("socket");
        }
        if self.path_allowed() {
            parts.push("path");
        }
        if self.string_allowed() {
            parts.push("string");
        }
        let ghost names = parts@.map_values(|p: &str| p@);
        proof {
            assert(names =~= spec_allowed_names(*self));
        }
        let mut out = String::new();
        let mut i: usize = 0;
        while i < parts.len()
            invariant
                i <= parts.len(),
                parts.len() >= 1,
                names == parts@.map_values(|p: &str| p@),
                names.len() == parts.len(),
                out@ == spec_join_bar(names.take(i as int)),
            decreases parts.len() - i,
        {
            if i > 0 {
                out.append("|");
            }
            out.append(parts[i]);
            proof {
                assert(names.take(i as int + 1).drop_last() =~= names.take(i as int));
                assert(names.take(i as int + 1).last() == names[i as int]);
                assert(names[i as int] == parts@[i as int]@);
                if i == 0 {
                    assert(out@ =~= names.take(1)[0]);
                }
            }
            i += 1;
        }
        proof {
            assert(names.take(parts@.len() as int) =~= names);
        }
        out
    }
}

/// The text is one of the two boolean literals.
pub open spec fn spec_is_bool_literal(s: Seq<char>) -> bool {
    s == "true"@ || s == "false"@
}

/// What a constraint resolves a token to: the first representation in the
/// precedence order Bool, Int, Float, Socket, Path, Text that both is
/// allowed and matches the token, or nothing when no allowed
/// representation matches.
pub open spec fn spec_parse(flag: VariantFlag, t: TokenModel) -> Option<VariantView> {
    if flag.allows_bool() && spec_is_bool_literal(t.text) {
        Some(VariantView::Bool { value: t.text == "true"@ })
    } else if flag.allows_int() && spec_parse_i32(t.text) is Some {
        Some(VariantView::Int { value: spec_parse_i32(t.text)->Some_0 })
    } else if flag.allows_float() && t.float_bits is Some {
        Some(VariantView::Float { bits: t.float_bits->Some_0 })
    } else if flag.allows_socket() && t.socket is Some {
        Some(VariantView::Socket { address: t.socket->Some_0 })
    } else if flag.allows_path() {
        Some(VariantView::Path { text: t.text })
    } else if flag.allows_string() {
        Some(VariantView::Text { text: t.text })
    } else {
        None
    }
}

/// The representation at a given rank is in the constraint's allowed set.
pub open spec fn spec_tag_allowed(flag: VariantFlag, tag: int) -> bool {
    if tag == 0 {
        flag.allows_bool()
    } else if tag == 1 {
        flag.allows_int()
    } else if tag == 2 {
        flag.allows_float()
    } else if tag == 3 {
        flag.allows_socket()
    } else if tag == 4 {
        flag.allows_path()
    } else if tag == 5 {
        flag.allows_string()
    } else {
        false
    }
}

/// The representation at a given rank matches the token on its own.
pub open spec fn spec_tag_matches(tag: int, t: TokenModel) -> bool {
    if tag == 0 {
        spec_is_bool_literal(t.text)
    } else if tag == 1 {
        spec_parse_i32(t.text) is Some
    } else if tag == 2 {
        t.float_bits is Some
    } else if tag == 3 {
        t.socket is Some
    } else if tag == 4 {
        true
    } else if tag == 5 {
        true
    } else {
        false
    }
}

/// Precedence law: whenever resolution succeeds, the resolved value's
/// representation is allowed and matches the token, and every allowed
/// representation that comes earlier in the precedence order does not
/// match; whenever resolution fails, no allowed representation matches.
pub proof fn lemma_parse_precedence(flag: VariantFlag, t: TokenModel)
    ensures
        spec_parse(flag, t) matches Some(v) ==> spec_tag_allowed(flag, spec_rank(v))
            && spec_tag_matches(spec_rank(v), t) && (forall|k: int|
            0 <= k < spec_rank(v) && spec_tag_allowed(flag, k) ==> !spec_tag_matches(k, t)),
        spec_parse(flag, t) is None ==> (forall|k: int|
            0 <= k <= 5 && spec_tag_allowed(flag, k) ==> !spec_tag_matches(k, t)),
{
}

/// A constraint that allows the path or plain-text representation never
/// fails to resolve: those representations accept any text verbatim.
pub proof fn lemma_parse_total_when_textual(flag: VariantFlag, t: TokenModel)
    ensures
        flag.allows_path() || flag.allows_string() ==> spec_parse(flag, t) is Some,
{
}

} // verus!

