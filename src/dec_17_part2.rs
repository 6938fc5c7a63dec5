use vstd::prelude::*;

verus! {

/// A symbolic bit: a named unknown, a constant, the identity or the
/// inversion of an unknown, or the exclusive or of two bits.
pub enum Bit {
    Named(String),
    Const(u8),
    Ident,
    Invert,
    Xor(Box<Bit>, Box<Bit>),
}

/// Two bits have the same shape and the same names and constants.
pub open spec fn same_bit(a: Bit, b: Bit) -> bool
    decreases a,
{
    match (a, b) {
        (Bit::Named(x), Bit::Named(y)) => x@ == y@,
        (Bit::Const(x), Bit::Const(y)) => x == y,
        (Bit::Ident, Bit::Ident) => true,
        (Bit::Invert, Bit::Invert) => true,
        (Bit::Xor(a1, a2), Bit::Xor(b1, b2)) => same_bit(*a1, *b1) && same_bit(*a2, *b2),
        _ => false,
    }
}

impl Bit {
    pub fn header(name: String) -> (r: Bit)
        ensures
            r matches Bit::Named(n) && n@ == name@,
    {
        Bit::Named(name)
    }

    pub fn unknown() -> (r: Bit)
        ensures
            r is Ident,
    {
        Bit::Ident
    }

    pub fn constant(value: u8) -> (r: Bit)
        ensures
            r == Bit::Const(value),
    {
        Bit::Const(value)
    }

    /// A copy of this bit.
    pub fn duplicate(&self) -> (r: Bit)
        ensures
            same_bit(r, *self),
        decreases self,
    {
        match self {
            Bit::Named(n) => Bit::Named(n.clone()),
            Bit::Const(x) => Bit::Const(*x),
            Bit::Ident => Bit::Ident,
            Bit::Invert => Bit::Invert,
            Bit::Xor(a, b) => {
                let a2 = (**a).duplicate();
                let b2 = (**b).duplicate();
                Bit::Xor(Box::new(a2), Box::new(b2))
            },
        }
    }

    /// The exclusive or of this bit and `other`.
    pub fn xor(&self, other: &Self) -> (r: Bit)
        ensures
            r matches Bit::Xor(a, b) && same_bit(*a, *self) && same_bit(*b, *other),
    {
        Bit::Xor(Box::new(self.duplicate()), Box::new(other.duplicate()))
    }

    /// Fixes this bit to the constant `value`.
    pub fn set(&mut self, value: u8)
        ensures
            *final(self) == Bit::Const(value),
    {
        *self = Bit::Const(value);
    }

    /// The name of a named bit; any other bit is handed back as the error.
    pub fn try_name(&self) -> (r: Result<&String, &Self>)
        ensures
            self is Named ==> (r matches Ok(n) && self matches Bit::Named(m) && n@ == m@),
            !(self is Named) ==> (r matches Err(b) && b == self),
    {
        match self {
            Bit::Named(name) => Ok(name),
            _ => Err(self),
        }
    }
}

/// A partial assignment of the 64 bits of a register.
pub struct Space {
    pub state: Vec<Option<bool>>,
}

/// The register value that `finalized` packs from the first `n` bits: each
/// bit is or-ed in and then the whole is shifted left once.
pub open spec fn packed(state: Seq<Option<bool>>, n: int) -> usize
    decreases n,
{
    if n <= 0 {
        0
    } else {
        let prev = packed(state, n - 1);
        let v = if state[n - 1] == Some(true) {
            prev | 1
        } else {
            prev
        };
        (v << 1usize) as usize
    }
}

impl Space {
    pub open spec fn wf(&self) -> bool {
        self.state.len() == 64
    }

    /// A space with every bit still free.
    pub fn new() -> (r: Space)
        ensures
            r.wf(),
            forall|i: int| 0 <= i < 64 ==> r.state@[i] is None,
    {
        let mut state: Vec<Option<bool>> = Vec::new();
        for i in 0..64usize
            invariant
                state.len() == i,
                forall|k: int| 0 <= k < i ==> (#[trigger] state@[k]) is None,
        {
            state.push(None);
        }
        Space { state }
    }

    /// Packs the bits fixed to `true` into an integer, first bit highest.
    pub fn finalized(&self) -> (r: usize)
        requires
            self.wf(),
        ensures
            r == packed(self.state@, 64),
    {
        let mut out: usize = 0;
        for i in 0..self.state.len()
            invariant
                out == packed(self.state@, i as int),
        {
            if self.state[i] == Some(true) {
                out = out | 1;
            }
            out = out << 1;
        }
        out
    }
}

} // verus!
