//! Names for the jump targets of loops and conditionals.

use vstd::prelude::*;

verus! {

/// The character of one decimal digit.
pub open spec fn digit(d: nat) -> char {
    if d == 0 {
        '0'
    } else if d == 1 {
        '1'
    } else if d == 2 {
        '2'
    } else if d == 3 {
        '3'
    } else if d == 4 {
        '4'
    } else if d == 5 {
        '5'
    } else if d == 6 {
        '6'
    } else if d == 7 {
        '7'
    } else if d == 8 {
        '8'
    } else {
        '9'
    }
}

/// A number written in decimal, without sign and without leading zeros.
pub open spec fn decimal(n: nat) -> Seq<char>
    decreases n,
{
    if n < 10 {
        seq![digit(n)]
    } else {
        decimal(n / 10).push(digit(n % 10))
    }
}

/// The label at the head of the `n`-th loop.
pub open spec fn for_begin_label(n: nat) -> Seq<char> {
    "__LForB"@ + decimal(n)
}

/// The label behind the `n`-th loop.
pub open spec fn for_end_label(n: nat) -> Seq<char> {
    "__LForE"@ + decimal(n)
}

/// The label at the head of the second arm of the `n`-th conditional.
pub open spec fn if_then_label(n: nat) -> Seq<char> {
    "__LIfT"@ + decimal(n)
}

/// The label behind the `n`-th conditional.
pub open spec fn if_join_label(n: nat) -> Seq<char> {
    "__LIfJ"@ + decimal(n)
}

/// `prefix` followed by `n` in decimal, made by `format!` from the
/// `Display` of `str` and of `u32`: the text as it is, and the number
/// without sign and without leading zeros.
#[verifier::external_body]
fn numbered(prefix: &str, n: u32) -> (res: String)
    ensures
        res@ == prefix@ + decimal(n as nat),
{
    format!("{}{}", prefix, n)
}

/// Hands out labels, numbered from zero in the order they are asked for.
pub struct LabelGenerator {
    for_id: u32,
    ifelse_id: u32,
}

impl LabelGenerator {
    /// The number that the labels of the next loop get.
    pub closed spec fn next_for(&self) -> nat {
        self.for_id as nat
    }

    /// The number that the labels of the next conditional get.
    pub closed spec fn next_ifelse(&self) -> nat {
        self.ifelse_id as nat
    }

    pub fn new() -> (res: Self)
        ensures
            res.next_for() == 0,
            res.next_ifelse() == 0,
    {
        Self { for_id: 0_u32, ifelse_id: 0_u32 }
    }

    /// The labels of the next loop: the one at its head and the one
    /// behind it.
    pub fn get_for_labels(&mut self) -> (res: (String, String))
        requires
            old(self).next_for() < u32::MAX,
        ensures
            res.0@ == for_begin_label(old(self).next_for()),
            res.1@ == for_end_label(old(self).next_for()),
            final(self).next_for() == old(self).next_for() + 1,
            final(self).next_ifelse() == old(self).next_ifelse(),
    {
        let res = (numbered("__LForB", self.for_id), numbered("__LForE", self.for_id));
        self.for_id += 1;
        res
    }

    /// The labels of the next conditional: the one at the head of its
    /// second arm and the one behind it.
    pub fn get_ifelse_labels(&mut self) -> (res: (String, String))
        requires
            old(self).next_ifelse() < u32::MAX,
        ensures
            res.0@ == if_then_label(old(self).next_ifelse()),
            res.1@ == if_join_label(old(self).next_ifelse()),
            final(self).next_ifelse() == old(self).next_ifelse() + 1,
            final(self).next_for() == old(self).next_for(),
    {
        let res = (numbered("__LIfT", self.ifelse_id), numbered("__LIfJ", self.ifelse_id));
        self.ifelse_id += 1;
        res
    }
}

} // verus!
