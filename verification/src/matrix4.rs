//! Two-by-two matrices, and the sum and product of a matrix of numbers with
//! a matrix of texts.
use vstd::prelude::*;
use vstd::string::*;
use crate::number::{decimal, push_decimal};
use crate::text::{chars_of, push_chars};

verus! {

/// One cell of a matrix.
#[derive(Debug, Clone, PartialEq)]
pub struct Cell<T>(pub T);

/// A matrix of two rows and two columns, kept row after row.
#[derive(Debug)]
pub struct Matrix<T: Clone> {
    data: [T; 4],
}

impl<T: Clone> Matrix<T> {
    /// The four cells, row after row.
    pub closed spec fn cells(&self) -> Seq<T> {
        self.data@
    }

    /// The matrix whose cells are copies of `data`, row after row.
    pub fn new(data: &[T; 4]) -> (matrix: Matrix<T>)
        ensures
            matrix.cells().len() == 4,
            forall|i: int| 0 <= i < 4 ==> cloned(data@[i], #[trigger] matrix.cells()[i]),
    {
        Matrix { data: [data[0].clone(), data[1].clone(), data[2].clone(), data[3].clone()] }
    }

    /// Copies of the cells, row after row: the first row, then the second.
    pub fn by_row(&self) -> (cells: Vec<Cell<T>>)
        ensures
            cells@.len() == 4,
            forall|i: int| 0 <= i < 4 ==> cloned(self.cells()[i], (#[trigger] cells@[i]).0),
    {
        let mut cells: Vec<Cell<T>> = Vec::new();
        cells.push(Cell(self.data[0].clone()));
        cells.push(Cell(self.data[1].clone()));
        cells.push(Cell(self.data[2].clone()));
        cells.push(Cell(self.data[3].clone()));
        cells
    }

    /// Copies of the cells, column after column: the first column, then the
    /// second.
    pub fn by_col(&self) -> (cells: Vec<Cell<T>>)
        ensures
            cells@.len() == 4,
            cloned(self.cells()[0], cells@[0].0),
            cloned(self.cells()[2], cells@[1].0),
            cloned(self.cells()[1], cells@[2].0),
            cloned(self.cells()[3], cells@[3].0),
    {
        let mut cells: Vec<Cell<T>> = Vec::new();
        cells.push(Cell(self.data[0].clone()));
        cells.push(Cell(self.data[2].clone()));
        cells.push(Cell(self.data[1].clone()));
        cells.push(Cell(self.data[3].clone()));
        cells
    }
}

/// The sum of a number and a text: the number, a space and the text; for a
/// negative number the text backwards, a space and the number without its
/// sign.
pub open spec fn sum_text(number: int, text: Seq<char>) -> Seq<char> {
    if number < 0 {
        text.reverse() + seq![' '] + decimal((-number) as nat)
    } else {
        decimal(number as nat) + seq![' '] + text
    }
}

/// `text` written `times` times in a row.
pub open spec fn repeated(text: Seq<char>, times: nat) -> Seq<char>
    decreases times,
{
    if times == 0 {
        Seq::empty()
    } else {
        repeated(text, (times - 1) as nat) + text
    }
}

/// The product of a number and a text: the text as many times as the number
/// says; for a negative number the text backwards, as many times as the
/// number without its sign says.
pub open spec fn product_text(number: int, text: Seq<char>) -> Seq<char> {
    if number < 0 {
        repeated(text.reverse(), (-number) as nat)
    } else {
        repeated(text, number as nat)
    }
}

/// The characters of `text` from the last to the first.
fn reversed(text: &str) -> (out: Vec<char>)
    ensures
        out@ == text@.reverse(),
{
    let chars = chars_of(text);
    let mut out: Vec<char> = Vec::new();
    let mut i: usize = chars.len();
    while i > 0
        invariant
            i <= chars.len(),
            chars@ == text@,
            out@.len() == chars.len() - i,
            forall|k: int| 0 <= k < out@.len() ==> out@[k] == chars@[chars.len() - 1 - k],
        decreases i,
    {
        i -= 1;
        out.push(chars[i]);
    }
    out
}

impl Cell<i32> {
    /// The sum of this number and a text.
    pub fn plus(self, rhs: Cell<String>) -> (sum: Cell<String>)
        requires
            self.0 > i32::MIN,
        ensures
            sum.0@ == sum_text(self.0 as int, rhs.0@),
    {
        let mut out = String::new();
        if self.0 < 0 {
            let backwards = reversed(rhs.0.as_str());
            push_chars(&mut out, &backwards, 0, backwards.len());
            out.push(' ');
            push_decimal(&mut out, (-self.0) as u32);
        } else {
            push_decimal(&mut out, self.0 as u32);
            out.push(' ');
            out.append(rhs.0.as_str());
        }
        Cell(out)
    }

    /// The product of this number and a text.
    pub fn times(self, rhs: Cell<String>) -> (product: Cell<String>)
        requires
            self.0 > i32::MIN,
        ensures
            product.0@ == product_text(self.0 as int, rhs.0@),
    {
        let (count, text): (u32, Vec<char>) = if self.0 < 0 {
            ((-self.0) as u32, reversed(rhs.0.as_str()))
        } else {
            (self.0 as u32, chars_of(rhs.0.as_str()))
        };
        let mut out = String::new();
        let mut i: u32 = 0;
        while i < count
            invariant
                i <= count,
                out@ == repeated(text@, i as nat),
            decreases count - i,
        {
            push_chars(&mut out, &text, 0, text.len());
            i += 1;
        }
        Cell(out)
    }
}

impl core::ops::Add<Cell<String>> for Cell<i32> {
    type Output = Cell<String>;

    /// The sum of this number and a text.
    fn add(self, rhs: Cell<String>) -> (sum: Cell<String>)
        ensures
            sum.0@ == sum_text(self.0 as int, rhs.0@),
    {
        self.plus(rhs)
    }
}

/// What `+` asks of its operands. A text cannot be built in a specification,
/// so the sum is stated by the `ensures` of `add`, over the characters of the
/// result, and not by `add_spec`.
impl vstd::std_specs::ops::AddSpecImpl<Cell<String>> for Cell<i32> {
    open spec fn obeys_add_spec() -> bool {
        false
    }

    open spec fn add_req(self, rhs: Cell<String>) -> bool {
        self.0 > i32::MIN
    }

    open spec fn add_spec(self, rhs: Cell<String>) -> Cell<String> {
        arbitrary()
    }
}

impl core::ops::Mul<Cell<String>> for Cell<i32> {
    type Output = Cell<String>;

    /// The product of this number and a text.
    fn mul(self, rhs: Cell<String>) -> (product: Cell<String>)
        ensures
            product.0@ == product_text(self.0 as int, rhs.0@),
    {
        self.times(rhs)
    }
}

/// What `*` asks of its operands; the product is stated by the `ensures` of
/// `mul`.
impl vstd::std_specs::ops::MulSpecImpl<Cell<String>> for Cell<i32> {
    open spec fn obeys_mul_spec() -> bool {
        false
    }

    open spec fn mul_req(self, rhs: Cell<String>) -> bool {
        self.0 > i32::MIN
    }

    open spec fn mul_spec(self, rhs: Cell<String>) -> Cell<String> {
        arbitrary()
    }
}

/// Whether none of the four numbers is the least that 32 bits hold, which
/// has no counterpart without its sign.
pub open spec fn negatable(numbers: Seq<i32>) -> bool {
    forall|i: int| 0 <= i < numbers.len() ==> #[trigger] numbers[i] > i32::MIN
}

/// The four products of a matrix of numbers, taken row after row, with a
/// matrix of texts, taken column after column, a space between them.
pub open spec fn products_text(numbers: Seq<i32>, texts: Seq<String>) -> Seq<char>
    recommends
        numbers.len() == 4,
        texts.len() == 4,
{
    product_text(numbers[0] as int, texts[0]@) + seq![' '] + product_text(
        numbers[1] as int,
        texts[2]@,
    ) + seq![' '] + product_text(numbers[2] as int, texts[1]@) + seq![' '] + product_text(
        numbers[3] as int,
        texts[3]@,
    )
}

impl core::ops::Add<Matrix<String>> for Matrix<i32> {
    type Output = Matrix<String>;

    /// The matrix of the sums, cell by cell.
    fn add(self, rhs: Matrix<String>) -> (sums: Matrix<String>)
        ensures
            sums.cells().len() == 4,
            forall|i: int|
                0 <= i < 4 ==> (#[trigger] sums.cells()[i])@ == sum_text(
                    self.cells()[i] as int,
                    rhs.cells()[i]@,
                ),
    {
        let mut left = self.by_row();
        let mut right = rhs.by_row();
        let d = left.pop().unwrap() + right.pop().unwrap();
        let c = left.pop().unwrap() + right.pop().unwrap();
        let b = left.pop().unwrap() + right.pop().unwrap();
        let a = left.pop().unwrap() + right.pop().unwrap();
        Matrix::new(&[a.0, b.0, c.0, d.0])
    }
}

/// What `+` asks of its operands; the sums are stated by the `ensures` of
/// `add`.
impl vstd::std_specs::ops::AddSpecImpl<Matrix<String>> for Matrix<i32> {
    open spec fn obeys_add_spec() -> bool {
        false
    }

    open spec fn add_req(self, rhs: Matrix<String>) -> bool {
        negatable(self.cells())
    }

    open spec fn add_spec(self, rhs: Matrix<String>) -> Matrix<String> {
        arbitrary()
    }
}

impl core::ops::Mul<Matrix<String>> for Matrix<i32> {
    type Output = String;

    /// The products of the rows of numbers with the columns of texts, a
    /// space between them.
    fn mul(self, rhs: Matrix<String>) -> (products: String)
        ensures
            products@ == products_text(self.cells(), rhs.cells()),
    {
        let mut left = self.by_row();
        let mut right = rhs.by_col();
        let d = left.pop().unwrap() * right.pop().unwrap();
        let c = left.pop().unwrap() * right.pop().unwrap();
        let b = left.pop().unwrap() * right.pop().unwrap();
        let a = left.pop().unwrap() * right.pop().unwrap();
        let mut out = a.0;
        out.push(' ');
        out.append(b.0.as_str());
        out.push(' ');
        out.append(c.0.as_str());
        out.push(' ');
        out.append(d.0.as_str());
        out
    }
}

/// What `*` asks of its operands; the products are stated by the `ensures`
/// of `mul`.
impl vstd::std_specs::ops::MulSpecImpl<Matrix<String>> for Matrix<i32> {
    open spec fn obeys_mul_spec() -> bool {
        false
    }

    open spec fn mul_req(self, rhs: Matrix<String>) -> bool {
        negatable(self.cells())
    }

    open spec fn mul_spec(self, rhs: Matrix<String>) -> String {
        arbitrary()
    }
}

} // verus!
