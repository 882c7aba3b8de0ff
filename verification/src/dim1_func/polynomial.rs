//! Polynomials in nested form, evaluated by nested multiplication.

use crate::dim1_func::Dim1Fn;
use crate::exact::exact_arithmetic;
use crate::float_traits::FloatConst;
use crate::float_traits::Scalar;
use crate::vectors::copy_of;
use vstd::prelude::*;
use vstd::string::StringExecFns;

verus! {

/// A polynomial in nested form.
///
/// With coefficients `c`, base points `b` and leading coefficient `l`, all of
/// degree `n`, its value at `x` is
/// `c[0] + (x - b[0]) * (c[1] + (x - b[1]) * ( ... (c[n-1] + (x - b[n-1]) * l)))`.
/// Without base points each `x - b[i]` is `x`; without coefficients each
/// `c[i]` is left out.
#[derive(Debug)]
pub struct Polynomial<T> {
    /// coefficient of the highest order
    leading_coe: T,
    coefficients: Option<Vec<T>>,
    base_points: Option<Vec<T>>,
}

impl<T> Polynomial<T> {
    /// Coefficients and base points, where both are given, are equally many.
    #[verifier::type_invariant]
    spec fn well_formed(self) -> bool {
        match (self.coefficients, self.base_points) {
            (Some(coes), Some(bps)) => coes@.len() == bps@.len(),
            _ => true,
        }
    }

    /// The coefficient of the highest order.
    pub closed spec fn leading_coe(&self) -> T {
        self.leading_coe
    }

    /// The coefficients, lowest order first, where they are given.
    pub closed spec fn coefficients(&self) -> Option<Seq<T>> {
        match self.coefficients {
            Some(coes) => Some(coes@),
            None => None,
        }
    }

    /// The base points, lowest order first, where they are given.
    pub closed spec fn base_points(&self) -> Option<Seq<T>> {
        match self.base_points {
            Some(bps) => Some(bps@),
            None => None,
        }
    }

    /// The degree: the number of coefficients, or of base points where no
    /// coefficients are given, or zero.
    pub open spec fn spec_degree(&self) -> nat {
        match self.coefficients() {
            Some(coes) => coes.len(),
            None => match self.base_points() {
                Some(bps) => bps.len(),
                None => 0,
            },
        }
    }

    /// The constant polynomial `leading_coe`.
    pub fn new(leading_coe: T) -> (p: Self)
        ensures
            p.leading_coe() == leading_coe,
            p.coefficients().is_none(),
            p.base_points().is_none(),
    {
        Self { leading_coe, coefficients: None, base_points: None }
    }

    /// The degree of the polynomial, which is the number of the coefficients
    /// and of the base points, where they are given.
    pub fn degree(&self) -> (d: usize)
        ensures
            d == self.spec_degree(),
            self.coefficients() matches Some(coes) ==> coes.len() == d,
            self.base_points() matches Some(bps) ==> bps.len() == d,
    {
        proof {
            use_type_invariant(self);
        }
        if let Some(coes) = &self.coefficients {
            coes.len()
        } else if let Some(bps) = &self.base_points {
            bps.len()
        } else {
            0
        }
    }

    /// The number of coefficients, where they are given.
    pub fn coefficient_count(&self) -> (count: Option<usize>)
        ensures
            match self.coefficients() {
                Some(coes) => count == Some(coes.len() as usize),
                None => count.is_none(),
            },
    {
        match &self.coefficients {
            Some(coes) => Some(coes.len()),
            None => None,
        }
    }

    /// The number of base points, where they are given.
    pub fn base_point_count(&self) -> (count: Option<usize>)
        ensures
            match self.base_points() {
                Some(bps) => count == Some(bps.len() as usize),
                None => count.is_none(),
            },
    {
        match &self.base_points {
            Some(bps) => Some(bps.len()),
            None => None,
        }
    }

    /// Replaces the leading coefficient.
    pub fn with_leading_coe(self, leading_coe: T) -> (p: Self)
        ensures
            p.leading_coe() == leading_coe,
            p.coefficients() == self.coefficients(),
            p.base_points() == self.base_points(),
    {
        proof {
            use_type_invariant(&self);
        }
        Self { leading_coe, coefficients: self.coefficients, base_points: self.base_points }
    }
}

impl<T: Copy> Clone for Polynomial<T> {
    /// A polynomial with the same leading coefficient, coefficients and base
    /// points.
    fn clone(&self) -> (p: Self)
        ensures
            p.leading_coe() == self.leading_coe(),
            p.coefficients() == self.coefficients(),
            p.base_points() == self.base_points(),
    {
        proof {
            use_type_invariant(self);
        }
        let coefficients = match &self.coefficients {
            Some(coes) => Some(copy_of(coes.as_slice())),
            None => None,
        };
        let base_points = match &self.base_points {
            Some(bps) => Some(copy_of(bps.as_slice())),
            None => None,
        };
        Self { leading_coe: self.leading_coe, coefficients, base_points }
    }
}

impl<T: FloatConst> Default for Polynomial<T> {
    /// The constant polynomial one.
    fn default() -> (p: Self)
        ensures
            p.leading_coe() == T::ONE,
            p.coefficients().is_none(),
            p.base_points().is_none(),
    {
        Polynomial::new(T::ONE)
    }
}

impl<T: Copy> Polynomial<T> {
    /// Replaces the coefficients, unless `coefficients` is empty, which
    /// leaves the polynomial as it is. Where base points are given, there are
    /// as many of them as of `coefficients`.
    pub fn with_coefficients(self, coefficients: &[T]) -> (p: Self)
        requires
            coefficients@.len() > 0 ==> (self.base_points() matches Some(bps) ==> bps.len()
                == coefficients@.len()),
        ensures
            p.leading_coe() == self.leading_coe(),
            p.base_points() == self.base_points(),
            p.coefficients() == if coefficients@.len() == 0 {
                self.coefficients()
            } else {
                Some(coefficients@)
            },
    {
        proof {
            use_type_invariant(&self);
        }
        if coefficients.len() == 0 {
            return self;
        }
        Self {
            leading_coe: self.leading_coe,
            coefficients: Some(copy_of(coefficients)),
            base_points: self.base_points,
        }
    }

    /// Replaces the base points, unless `base_points` is empty, which leaves
    /// the polynomial as it is. Where coefficients are given, there are as
    /// many of them as of `base_points`.
    pub fn with_base_points(self, base_points: &[T]) -> (p: Self)
        requires
            base_points@.len() > 0 ==> (self.coefficients() matches Some(coes) ==> coes.len()
                == base_points@.len()),
        ensures
            p.leading_coe() == self.leading_coe(),
            p.coefficients() == self.coefficients(),
            p.base_points() == if base_points@.len() == 0 {
                self.base_points()
            } else {
                Some(base_points@)
            },
    {
        proof {
            use_type_invariant(&self);
        }
        if base_points.len() == 0 {
            return self;
        }
        Self {
            leading_coe: self.leading_coe,
            coefficients: self.coefficients,
            base_points: Some(copy_of(base_points)),
        }
    }
}

impl<T: Scalar> Polynomial<T> {
    /// One step of nested multiplication: the value `inner` of the part of
    /// the nested form inside position `i`, carried out to position `i`.
    pub open spec fn nest_step(&self, inner: T, x: T, i: int) -> T {
        match (self.base_points(), self.coefficients()) {
            (Some(bps), Some(coes)) => inner.mul_spec(x.sub_spec(bps[i])).add_spec(coes[i]),
            (Some(bps), None) => inner.mul_spec(x.sub_spec(bps[i])),
            (None, Some(coes)) => inner.mul_spec(x).add_spec(coes[i]),
            (None, None) => inner,
        }
    }

    /// The value at `x` of the part of the nested form from position `from`
    /// inwards; from position zero, the value of the polynomial.
    pub open spec fn nest_value(&self, x: T, from: nat) -> T
        decreases self.spec_degree() - from,
    {
        if from >= self.spec_degree() {
            self.leading_coe()
        } else {
            self.nest_step(self.nest_value(x, from + 1), x, from as int)
        }
    }

    /// Nested multiplication: evaluates the polynomial at `x` with one
    /// multiplication for each degree.
    pub fn nest_mul(&self, x: T) -> (y: T)
        ensures
            y == self.nest_value(x, 0),
    {
        proof {
            use_type_invariant(self);
        }
        let mut y: T = self.leading_coe;
        let n: usize = self.degree();
        let mut i: usize = n;
        while i > 0
            invariant
                i <= n,
                n == self.spec_degree(),
                self.well_formed(),
                y == self.nest_value(x, i as nat),
            decreases i,
        {
            i -= 1;
            if let Some(b) = &self.base_points {
                if let Some(c) = &self.coefficients {
                    y = y.mul(x.sub(b[i])).add(c[i]);
                } else {
                    y = y.mul(x.sub(b[i]));
                }
            } else if let Some(c) = &self.coefficients {
                y = y.mul(x).add(c[i]);
            }
        }
        y
    }
}

impl<T: Scalar> Dim1Fn<T> for Polynomial<T> {
    open spec fn eval_spec(&self, x: T) -> T {
        self.nest_value(x, 0)
    }

    fn eval(&self, x: T) -> (y: T) {
        self.nest_mul(x)
    }
}

impl<T: Scalar> Polynomial<T> {
    /// The coefficient of position `i` as a real number; zero where no
    /// coefficients are given.
    pub open spec fn weight(&self, val: spec_fn(T) -> real, i: int) -> real {
        match self.coefficients() {
            Some(coes) => val(coes[i]),
            None => 0real,
        }
    }

    /// The base point of position `i` as a real number; zero where no base
    /// points are given.
    pub open spec fn shift(&self, val: spec_fn(T) -> real, i: int) -> real {
        match self.base_points() {
            Some(bps) => val(bps[i]),
            None => 0real,
        }
    }

    /// The product of `x` less the base point, over the positions from
    /// `from` up to and without `to`.
    pub open spec fn product(&self, val: spec_fn(T) -> real, x: real, from: int, to: int) -> real
        decreases to - from,
    {
        if to <= from {
            1real
        } else {
            self.product(val, x, from, to - 1) * (x - self.shift(val, to - 1))
        }
    }

    /// The sum, over the positions from `from` up to and without `upto`, of
    /// the coefficient times the product of the positions from `from` up to
    /// its own.
    pub open spec fn expanded(&self, val: spec_fn(T) -> real, x: real, from: int, upto: int) -> real
        decreases upto - from,
    {
        if upto <= from {
            0real
        } else {
            self.expanded(val, x, from, upto - 1) + self.weight(val, upto - 1) * self.product(
                val,
                x,
                from,
                upto - 1,
            )
        }
    }

    /// A product that starts one position earlier has one factor more.
    proof fn lemma_product_from(&self, val: spec_fn(T) -> real, x: real, from: int, to: int)
        requires
            from < to,
        ensures
            self.product(val, x, from, to) == (x - self.shift(val, from)) * self.product(
                val,
                x,
                from + 1,
                to,
            ),
        decreases to - from,
    {
        let head = x - self.shift(val, from);
        if to == from + 1 {
            assert(self.product(val, x, from, from) == 1real);
            assert(self.product(val, x, from + 1, to) == 1real);
            assert(1real * head == head * 1real) by (nonlinear_arith);
        } else {
            self.lemma_product_from(val, x, from, to - 1);
            let rest = self.product(val, x, from + 1, to - 1);
            let last = x - self.shift(val, to - 1);
            assert((head * rest) * last == head * (rest * last)) by (nonlinear_arith);
        }
    }

    /// A sum that starts one position earlier has the coefficient of that
    /// position more, and one factor more in every other term.
    proof fn lemma_expanded_from(&self, val: spec_fn(T) -> real, x: real, from: int, upto: int)
        requires
            from < upto,
        ensures
            self.expanded(val, x, from, upto) == self.weight(val, from) + (x - self.shift(
                val,
                from,
            )) * self.expanded(val, x, from + 1, upto),
        decreases upto - from,
    {
        let head = x - self.shift(val, from);
        if upto == from + 1 {
            assert(self.expanded(val, x, from, from) == 0real);
            assert(self.product(val, x, from, from) == 1real);
            assert(self.expanded(val, x, from + 1, upto) == 0real);
            let w = self.weight(val, from);
            assert(w * 1real == w) by (nonlinear_arith);
            assert(head * 0real == 0real) by (nonlinear_arith);
        } else {
            self.lemma_expanded_from(val, x, from, upto - 1);
            self.lemma_product_from(val, x, from, upto - 1);
            let w = self.weight(val, upto - 1);
            let sum = self.expanded(val, x, from + 1, upto - 1);
            let rest = self.product(val, x, from + 1, upto - 1);
            assert(w * (head * rest) == head * (w * rest)) by (nonlinear_arith);
            assert(head * sum + head * (w * rest) == head * (sum + w * rest)) by (nonlinear_arith);
        }
    }

    /// Under exact arithmetic, nested multiplication gives the value of the
    /// expanded polynomial: the sum, over the positions, of the coefficient
    /// times the product of `x` less the base point over the positions
    /// before, and the leading coefficient times that product over all
    /// positions.
    pub proof fn lemma_nest_value_expanded(&self, val: spec_fn(T) -> real, x: T, from: nat)
        requires
            exact_arithmetic(val),
            from <= self.spec_degree(),
            self.coefficients() matches Some(coes) ==> coes.len() == self.spec_degree(),
            self.base_points() matches Some(bps) ==> bps.len() == self.spec_degree(),
        ensures
            val(self.nest_value(x, from)) == self.expanded(
                val,
                val(x),
                from as int,
                self.spec_degree() as int,
            ) + val(self.leading_coe()) * self.product(
                val,
                val(x),
                from as int,
                self.spec_degree() as int,
            ),
        decreases self.spec_degree() - from,
    {
        let n = self.spec_degree() as int;
        let lead = val(self.leading_coe());
        if from >= self.spec_degree() {
            assert(self.expanded(val, val(x), from as int, n) == 0real);
            assert(self.product(val, val(x), from as int, n) == 1real);
            assert(lead * 1real == lead) by (nonlinear_arith);
        } else {
            self.lemma_nest_value_expanded(val, x, from + 1);
            self.lemma_expanded_from(val, val(x), from as int, n);
            self.lemma_product_from(val, val(x), from as int, n);
            let head = val(x) - self.shift(val, from as int);
            let inner = val(self.nest_value(x, from + 1));
            let sum = self.expanded(val, val(x), from as int + 1, n);
            let rest = self.product(val, val(x), from as int + 1, n);
            let w = self.weight(val, from as int);
            assert(val(self.nest_value(x, from)) == inner * head + w) by {
                assert(inner * val(x) == inner * (val(x) - 0real));
            }
            assert((sum + lead * rest) * head == head * sum + lead * (head * rest))
                by (nonlinear_arith);
        }
    }
}

/// The text `s` without its minus signs.
pub open spec fn unsigned_text(s: Seq<char>) -> Seq<char> {
    s.filter(|c: char| c != '-')
}

/// Removes every minus sign from `s`, with `str::replace`: the text that is
/// left holds the other characters of `s`, in their order.
#[verifier::external_body]
fn without_minus(s: &str) -> (text: String)
    ensures
        text@ == unsigned_text(s@),
{
    s.replace('-', "")
}

/// The text of the factor of one position of the nested form: `x`, or `x`
/// less the base point where one is given that does not equal zero. A base
/// point above zero is subtracted as it is written; any other is added,
/// written without its sign.
pub open spec fn factor_text<T: Scalar>(base_point: Option<(T, Seq<char>)>) -> Seq<char> {
    match base_point {
        Some((bp, written)) => if bp.eq_spec(T::ZERO) {
            "x"@
        } else if T::ZERO.lt_spec(bp) {
            "(x "@ + "-"@ + " "@ + written + ")"@
        } else {
            "(x "@ + "+"@ + " "@ + unsigned_text(written) + ")"@
        },
        None => "x"@,
    }
}

/// The text of the nested form from position `i`, given the text `inner` of
/// the part inside it: the factor times `inner`, after the coefficient where
/// one is given that does not equal zero, and then in brackets unless `i` is
/// zero.
pub open spec fn step_text<T: Scalar>(
    inner: Seq<char>,
    i: int,
    coefficient: Option<(T, Seq<char>)>,
    base_point: Option<(T, Seq<char>)>,
) -> Seq<char> {
    let product = factor_text(base_point) + " * "@ + inner;
    match coefficient {
        Some((coe, written)) => if coe.eq_spec(T::ZERO) {
            product
        } else {
            let sum = written + " "@ + (if T::ZERO.lt_spec(coe) {
                "+"@
            } else {
                "-"@
            }) + " "@ + product;
            if i != 0 {
                "("@ + sum + ")"@
            } else {
                sum
            }
        },
        None => product,
    }
}

impl<T: Scalar> Polynomial<T> {
    /// The coefficient of position `i` with its text, where coefficients
    /// are given.
    pub open spec fn written_coefficient(&self, texts: Seq<String>, i: int) -> Option<
        (T, Seq<char>),
    > {
        match self.coefficients() {
            Some(coes) => Some((coes[i], texts[i]@)),
            None => None,
        }
    }

    /// The base point of position `i` with its text, where base points are
    /// given.
    pub open spec fn written_base_point(&self, texts: Seq<String>, i: int) -> Option<
        (T, Seq<char>),
    > {
        match self.base_points() {
            Some(bps) => Some((bps[i], texts[i]@)),
            None => None,
        }
    }

    /// The text of the part of the nested form from position `from`
    /// inwards, given the texts of the leading coefficient, of the
    /// coefficients and of the base points.
    pub open spec fn text_from(
        &self,
        leading: Seq<char>,
        coefficients: Seq<String>,
        base_points: Seq<String>,
        from: nat,
    ) -> Seq<char>
        decreases self.spec_degree() - from,
    {
        if from >= self.spec_degree() {
            leading
        } else {
            step_text(
                self.text_from(leading, coefficients, base_points, from + 1),
                from as int,
                self.written_coefficient(coefficients, from as int),
                self.written_base_point(base_points, from as int),
            )
        }
    }

    /// Writes the polynomial in nested form, from the texts of its numbers:
    /// `leading` for the leading coefficient, and one text for each
    /// coefficient and each base point that is given.
    pub fn compose(&self, leading: &str, coefficients: &[String], base_points: &[String]) -> (text:
        String)
        requires
            self.coefficients() matches Some(coes) ==> coefficients@.len() == coes.len(),
            self.base_points() matches Some(bps) ==> base_points@.len() == bps.len(),
        ensures
            text@ == self.text_from(leading@, coefficients@, base_points@, 0),
    {
        proof {
            use_type_invariant(self);
        }
        let n: usize = self.degree();
        let mut s = String::from_str(leading);
        let mut i: usize = n;
        while i > 0
            invariant
                i <= n,
                n == self.spec_degree(),
                self.well_formed(),
                self.coefficients() matches Some(coes) ==> coefficients@.len() == coes.len(),
                self.base_points() matches Some(bps) ==> base_points@.len() == bps.len(),
                s@ == self.text_from(leading@, coefficients@, base_points@, i as nat),
            decreases i,
        {
            i -= 1;
            let mut bp_s = String::from_str("x");
            if let Some(bps) = &self.base_points {
                let bp = bps[i];
                if !bp.eq(T::ZERO) {
                    if T::ZERO.lt(bp) {
                        bp_s = String::from_str("(x ").concat("-").concat(" ").concat(
                            base_points[i].as_str(),
                        ).concat(")");
                    } else {
                        let written = without_minus(base_points[i].as_str());
                        bp_s = String::from_str("(x ").concat("+").concat(" ").concat(
                            written.as_str(),
                        ).concat(")");
                    }
                }
            }
            s = bp_s.concat(" * ").concat(s.as_str());
            if let Some(coes) = &self.coefficients {
                let coe = coes[i];
                if !coe.eq(T::ZERO) {
                    let sign = if T::ZERO.lt(coe) {
                        "+"
                    } else {
                        "-"
                    };
                    s = String::from_str(coefficients[i].as_str()).concat(" ").concat(sign).concat(
                        " ",
                    ).concat(s.as_str());
                    if i != 0 {
                        s = String::from_str("(").concat(s.as_str()).concat(")");
                    }
                }
            }
        }
        s
    }
}

/// Whether `written` holds, for each number of `numbers` in turn, a text
/// that its `Display` gives.
pub open spec fn displayed<T: std::fmt::Display>(numbers: Seq<T>, written: Seq<String>) -> bool {
    &&& written.len() == numbers.len()
    &&& forall|i: int|
        0 <= i < numbers.len() ==> vstd::string::to_string_from_display_ensures::<T>(
            &numbers[i],
            #[trigger] written[i],
        )
}

/// Writes each number of `numbers` as its `Display` gives it.
fn display_all<T: std::fmt::Display>(numbers: &Vec<T>) -> (written: Vec<String>)
    ensures
        displayed(numbers@, written@),
{
    let mut written: Vec<String> = Vec::new();
    let mut i: usize = 0;
    while i < numbers.len()
        invariant
            i <= numbers.len(),
            displayed(numbers@.subrange(0, i as int), written@),
        decreases numbers.len() - i,
    {
        let text = numbers[i].to_string();
        written.push(text);
        i += 1;
    }
    assert(numbers@.subrange(0, i as int) == numbers@);
    written
}

impl<T: Scalar + std::fmt::Display> Polynomial<T> {
    /// Writes the polynomial in nested form, each number as its `Display`
    /// gives it.
    pub fn to_text(&self) -> (text: String)
        ensures
            exists|leading: String, coefficients: Seq<String>, base_points: Seq<String>|
                {
                    &&& vstd::string::to_string_from_display_ensures::<T>(
                        &self.leading_coe(),
                        leading,
                    )
                    &&& self.coefficients() matches Some(coes) ==> displayed(coes, coefficients)
                    &&& self.base_points() matches Some(bps) ==> displayed(bps, base_points)
                    &&& text@ == #[trigger] self.text_from(
                        leading@,
                        coefficients,
                        base_points,
                        0,
                    )
                },
    {
        let leading = self.leading_coe.to_string();
        let coefficients = match &self.coefficients {
            Some(coes) => display_all(coes),
            None => Vec::new(),
        };
        let base_points = match &self.base_points {
            Some(bps) => display_all(bps),
            None => Vec::new(),
        };
        self.compose(leading.as_str(), coefficients.as_slice(), base_points.as_slice())
    }
}

} // verus!
