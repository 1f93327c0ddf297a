use vstd::prelude::*;

use crate::error::ServiceError;
use crate::text::{
    all_ws, decimal, decimal_u32, is_digit, lemma_decimal_digits, lemma_trimmed_pad,
    lemma_trimmed_plain, parse_decimal, render_decimal, text_eq, trim, trimmed,
};

verus! {

/// The unit in which a product is measured.
#[derive(Clone, Copy, Debug, PartialEq, Eq, Structural)]
pub enum Unit {
    Piece,
    Millimeter,
    Gram,
    Milliliter,
}

/// How much one SKU holds: a plain count, or a multiplier of packs of a count.
#[derive(Clone, Copy, Debug, PartialEq, Eq, Structural)]
pub enum Quantity {
    Simple(u32),
    Complex(u32, u32),
}

impl Unit {
    /// The canonical short code of the unit.
    pub open spec fn code(self) -> Seq<char> {
        match self {
            Unit::Piece => "db"@,
            Unit::Millimeter => "mm"@,
            Unit::Gram => "g"@,
            Unit::Milliliter => "ml"@,
        }
    }

    /// The unit that an alias names, if any.
    pub open spec fn from_alias(t: Seq<char>) -> Option<Unit> {
        if t == "piece"@ || t == "db"@ {
            Some(Unit::Piece)
        } else if t == "mm"@ || t == "millimeter"@ {
            Some(Unit::Millimeter)
        } else if t == "g"@ || t == "gr"@ || t == "gram"@ {
            Some(Unit::Gram)
        } else if t == "ml"@ || t == "milliliter"@ {
            Some(Unit::Milliliter)
        } else {
            None
        }
    }

    /// What reading `s` as a unit gives: an alias, with surrounding whitespace ignored.
    pub open spec fn parse_spec(s: Seq<char>) -> Option<Unit> {
        Unit::from_alias(trimmed(s))
    }

    /// Reads a unit from its text.
    pub fn try_from_str(s: &str) -> (r: Result<Unit, ServiceError>)
        ensures
            match r {
                Ok(u) => Unit::parse_spec(s@) == Some(u),
                Err(e) => Unit::parse_spec(s@) is None && e is BadRequest,
            },
    {
        let t = trim(s);
        if text_eq(t, "piece") || text_eq(t, "db") {
            Ok(Unit::Piece)
        } else if text_eq(t, "mm") || text_eq(t, "millimeter") {
            Ok(Unit::Millimeter)
        } else if text_eq(t, "g") || text_eq(t, "gr") || text_eq(t, "gram") {
            Ok(Unit::Gram)
        } else if text_eq(t, "ml") || text_eq(t, "milliliter") {
            Ok(Unit::Milliliter)
        } else {
            Err(ServiceError::bad_request("unknown unit"))
        }
    }

    /// The canonical short code of the unit, as text.
    pub fn to_string(&self) -> (r: String)
        ensures
            r@ == self.code(),
    {
        match self {
            Unit::Piece => String::from_str("db"),
            Unit::Millimeter => String::from_str("mm"),
            Unit::Gram => String::from_str("g"),
            Unit::Milliliter => String::from_str("ml"),
        }
    }
}

/// Whether `k` is the one position of `t` that holds the separator `x`.
pub open spec fn sole_separator(t: Seq<char>, k: int) -> bool {
    &&& 0 <= k < t.len()
    &&& t[k] == 'x'
    &&& forall|j: int| 0 <= j < t.len() && j != k ==> #[trigger] t[j] != 'x'
}

impl Quantity {
    /// The text form of a quantity: `N`, or `MxN`.
    pub open spec fn text(self) -> Seq<char> {
        match self {
            Quantity::Simple(n) => decimal(n as nat),
            Quantity::Complex(m, n) => decimal(m as nat) + seq!['x'] + decimal(n as nat),
        }
    }

    /// What reading the trimmed text `t` as a quantity gives.
    pub open spec fn from_trimmed(t: Seq<char>) -> Option<Quantity> {
        if exists|k: int| sole_separator(t, k) {
            let k = choose|k: int| sole_separator(t, k);
            match (decimal_u32(t.subrange(0, k)), decimal_u32(t.subrange(k + 1, t.len() as int))) {
                (Some(m), Some(n)) => Some(Quantity::Complex(m, n)),
                _ => None,
            }
        } else {
            match decimal_u32(t) {
                Some(n) => Some(Quantity::Simple(n)),
                None => None,
            }
        }
    }

    /// What reading `s` as a quantity gives, with surrounding whitespace ignored.
    pub open spec fn parse_spec(s: Seq<char>) -> Option<Quantity> {
        Quantity::from_trimmed(trimmed(s))
    }

    /// Reads a quantity from its text: `N`, or `MxN` with exactly one separator.
    pub fn try_from_str(s: &str) -> (r: Result<Quantity, ServiceError>)
        ensures
            match r {
                Ok(q) => Quantity::parse_spec(s@) == Some(q),
                Err(e) => Quantity::parse_spec(s@) is None && e is BadRequest,
            },
    {
        let t = trim(s);
        let n = t.unicode_len();
        let mut count: usize = 0;
        let mut first: usize = 0;
        let mut second: usize = 0;
        let mut i: usize = 0;
        while i < n
            invariant
                n == t@.len(),
                i <= n,
                count <= 2,
                count == 0 ==> forall|j: int| 0 <= j < i ==> #[trigger] t@[j] != 'x',
                count >= 1 ==> first < i && t@[first as int] == 'x',
                count == 1 ==> forall|j: int| 0 <= j < i && j != first ==> #[trigger] t@[j] != 'x',
                count == 2 ==> second < i && second != first && t@[second as int] == 'x',
            decreases n - i,
        {
            if t.get_char(i) == 'x' {
                if count == 0 {
                    first = i;
                    count = 1;
                } else if count == 1 {
                    second = i;
                    count = 2;
                }
            }
            i = i + 1;
        }
        if count == 1 {
            assert(sole_separator(t@, first as int));
            let ghost k = choose|k: int| sole_separator(t@, k);
            assert(k == first);
            let left = t.substring_char(0, first);
            let right = t.substring_char(first + 1, n);
            match (parse_decimal(left), parse_decimal(right)) {
                (Some(m), Some(c)) => Ok(Quantity::Complex(m, c)),
                _ => Err(ServiceError::bad_request("quantity parts must be whole numbers")),
            }
        } else {
            assert(!exists|k: int| sole_separator(t@, k)) by {
                if count == 2 {
                    assert forall|k: int| !sole_separator(t@, k) by {
                        if sole_separator(t@, k) {
                            assert(k == first || t@[first as int] != 'x');
                            assert(k == second || t@[second as int] != 'x');
                        }
                    }
                }
            }
            match parse_decimal(t) {
                Some(c) => Ok(Quantity::Simple(c)),
                None => Err(ServiceError::bad_request("quantity must be N or MxN")),
            }
        }
    }

    /// The text form of the quantity.
    pub fn to_string(&self) -> (r: String)
        ensures
            r@ == self.text(),
    {
        match self {
            Quantity::Simple(n) => render_decimal(*n),
            Quantity::Complex(m, n) => {
                let mut s = render_decimal(*m);
                s.append("x");
                let tail = render_decimal(*n);
                s.append(tail.as_str());
                proof {
                    reveal_strlit("x");
                }
                assert(s@ =~= self.text());
                s
            },
        }
    }
}

/// The packaging shown to users: the quantity followed by the unit's code.
pub open spec fn packaging_text(q: Quantity, u: Unit) -> Seq<char> {
    q.text() + u.code()
}

/// Renders a quantity with its unit, as in `5000g` or `3x5db`.
pub fn fancy_display(quantity: &Quantity, unit: &Unit) -> (r: String)
    ensures
        r@ == packaging_text(*quantity, *unit),
{
    let mut s = quantity.to_string();
    let code = unit.to_string();
    s.append(code.as_str());
    s
}

proof fn lemma_decimal_reads_back(n: u32)
    ensures
        decimal_u32(decimal(n as nat)) == Some(n),
        forall|k: int| 0 <= k < decimal(n as nat).len() ==> #[trigger] decimal(n as nat)[k] != 'x',
        !is_digit('x'),
{
    lemma_decimal_digits(n as nat);
    let d = decimal(n as nat);
    assert forall|k: int| 0 <= k < d.len() implies #[trigger] d[k] != 'x' by {
        assert(is_digit(d[k]));
    }
}

/// Reading back the text of any quantity gives that quantity.
pub proof fn lemma_quantity_round_trip(q: Quantity)
    ensures
        Quantity::parse_spec(q.text()) == Some(q),
{
    let t = q.text();
    match q {
        Quantity::Simple(n) => {
            lemma_decimal_reads_back(n);
            lemma_decimal_digits(n as nat);
            assert(is_digit(t[0]) && is_digit(t.last()));
            lemma_trimmed_plain(t);
            assert(!exists|k: int| sole_separator(t, k)) by {
                assert forall|k: int| !sole_separator(t, k) by {
                    if 0 <= k < t.len() {
                        assert(t[k] != 'x');
                    }
                }
            }
        },
        Quantity::Complex(m, n) => {
            lemma_decimal_reads_back(m);
            lemma_decimal_reads_back(n);
            lemma_decimal_digits(m as nat);
            lemma_decimal_digits(n as nat);
            let a = decimal(m as nat);
            let b = decimal(n as nat);
            let k = a.len() as int;
            assert(t[0] == a[0]);
            assert(t.last() == b.last());
            assert(is_digit(a[0]) && is_digit(b.last()));
            lemma_trimmed_plain(t);
            assert(t[k] == 'x');
            assert forall|j: int| 0 <= j < t.len() && j != k implies #[trigger] t[j] != 'x' by {
                if j < k {
                    assert(t[j] == a[j]);
                } else {
                    assert(t[j] == b[j - k - 1]);
                }
            }
            assert(sole_separator(t, k));
            let c = choose|c: int| sole_separator(t, c);
            assert(c == k);
            assert(t.subrange(0, k) =~= a);
            assert(t.subrange(k + 1, t.len() as int) =~= b);
        },
    }
}

/// Whitespace around the text of a quantity is ignored.
pub proof fn lemma_quantity_padding(p: Seq<char>, s: Seq<char>, q: Seq<char>)
    requires
        all_ws(p),
        all_ws(q),
    ensures
        Quantity::parse_spec(p + s + q) == Quantity::parse_spec(s),
{
    lemma_trimmed_pad(p, s, q);
}

/// Each accepted alias reads to a unit whose canonical code reads back to that same unit.
pub proof fn lemma_unit_round_trip(s: Seq<char>, u: Unit)
    requires
        Unit::parse_spec(s) == Some(u),
    ensures
        Unit::parse_spec(u.code()) == Some(u),
{
    reveal_strlit("piece");
    reveal_strlit("db");
    reveal_strlit("mm");
    reveal_strlit("millimeter");
    reveal_strlit("g");
    reveal_strlit("gr");
    reveal_strlit("gram");
    reveal_strlit("ml");
    reveal_strlit("milliliter");
    lemma_trimmed_plain(u.code());
}

/// Whitespace around the text of a unit is ignored.
pub proof fn lemma_unit_padding(p: Seq<char>, s: Seq<char>, q: Seq<char>)
    requires
        all_ws(p),
        all_ws(q),
    ensures
        Unit::parse_spec(p + s + q) == Unit::parse_spec(s),
{
    lemma_trimmed_pad(p, s, q);
}

} // verus!
