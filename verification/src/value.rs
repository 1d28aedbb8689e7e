//! The value tree that the decoder reads.

use vstd::prelude::*;

verus! {

/// An interned symbol: an index into the symbol table that gives its text.
#[derive(Clone, Copy, Debug, PartialEq, Eq, Structural)]
pub struct Name {
    pub id: u32,
}

/// The integer widths that a value can be stored in and a target can ask for.
#[derive(Clone, Copy, Debug, PartialEq, Eq, Structural)]
pub enum Width {
    I8,
    I16,
    I32,
    I64,
    U8,
    U16,
    U32,
    U64,
}

impl Width {
    /// The least number of this width.
    pub open spec fn min(self) -> int {
        match self {
            Width::I8 => -0x80,
            Width::I16 => -0x8000,
            Width::I32 => -0x8000_0000,
            Width::I64 => -0x8000_0000_0000_0000,
            _ => 0,
        }
    }

    /// The greatest number of this width.
    pub open spec fn max(self) -> int {
        match self {
            Width::I8 => 0x7f,
            Width::I16 => 0x7fff,
            Width::I32 => 0x7fff_ffff,
            Width::I64 => 0x7fff_ffff_ffff_ffff,
            Width::U8 => 0xff,
            Width::U16 => 0xffff,
            Width::U32 => 0xffff_ffff,
            Width::U64 => 0xffff_ffff_ffff_ffff,
        }
    }

    /// Whether `n` can be stored in this width.
    pub open spec fn holds(self, n: int) -> bool {
        self.min() <= n <= self.max()
    }

    /// The least number of this width.
    pub fn lower(&self) -> (n: i128)
        ensures
            n == self.min(),
    {
        match self {
            Width::I8 => -0x80,
            Width::I16 => -0x8000,
            Width::I32 => -0x8000_0000,
            Width::I64 => -0x8000_0000_0000_0000,
            _ => 0,
        }
    }

    /// The greatest number of this width.
    pub fn upper(&self) -> (n: i128)
        ensures
            n == self.max(),
    {
        match self {
            Width::I8 => 0x7f,
            Width::I16 => 0x7fff,
            Width::I32 => 0x7fff_ffff,
            Width::I64 => 0x7fff_ffff_ffff_ffff,
            Width::U8 => 0xff,
            Width::U16 => 0xffff,
            Width::U32 => 0xffff_ffff,
            Width::U64 => 0xffff_ffff_ffff_ffff,
        }
    }
}

/// An integer together with the width it is stored in.
#[derive(Clone, Copy, Debug, PartialEq, Eq, Structural)]
pub enum Integer {
    I8(i8),
    I16(i16),
    I32(i32),
    I64(i64),
    U8(u8),
    U16(u16),
    U32(u32),
    U64(u64),
}

impl Integer {
    /// The width that the number is stored in.
    pub open spec fn spec_width(&self) -> Width {
        match *self {
            Integer::I8(_) => Width::I8,
            Integer::I16(_) => Width::I16,
            Integer::I32(_) => Width::I32,
            Integer::I64(_) => Width::I64,
            Integer::U8(_) => Width::U8,
            Integer::U16(_) => Width::U16,
            Integer::U32(_) => Width::U32,
            Integer::U64(_) => Width::U64,
        }
    }

    /// The number itself, whatever its width.
    pub open spec fn value(self) -> int {
        match self {
            Integer::I8(n) => n as int,
            Integer::I16(n) => n as int,
            Integer::I32(n) => n as int,
            Integer::I64(n) => n as int,
            Integer::U8(n) => n as int,
            Integer::U16(n) => n as int,
            Integer::U32(n) => n as int,
            Integer::U64(n) => n as int,
        }
    }

    /// The integer of width `width` whose number is `n`, for an `n` that the
    /// width holds.
    pub open spec fn of(width: Width, n: int) -> Integer {
        match width {
            Width::I8 => Integer::I8(n as i8),
            Width::I16 => Integer::I16(n as i16),
            Width::I32 => Integer::I32(n as i32),
            Width::I64 => Integer::I64(n as i64),
            Width::U8 => Integer::U8(n as u8),
            Width::U16 => Integer::U16(n as u16),
            Width::U32 => Integer::U32(n as u32),
            Width::U64 => Integer::U64(n as u64),
        }
    }

    /// What storing this number in `width` gives: the same number in the new
    /// width where it fits, nothing where it does not.
    pub open spec fn spec_narrow(self, width: Width) -> Option<Integer> {
        if width.holds(self.value()) {
            Some(Integer::of(width, self.value()))
        } else {
            None
        }
    }

    /// The width that the number is stored in.
    #[verifier::when_used_as_spec(spec_width)]
    pub fn width(&self) -> (w: Width)
        ensures
            w == self.spec_width(),
    {
        match self {
            Integer::I8(_) => Width::I8,
            Integer::I16(_) => Width::I16,
            Integer::I32(_) => Width::I32,
            Integer::I64(_) => Width::I64,
            Integer::U8(_) => Width::U8,
            Integer::U16(_) => Width::U16,
            Integer::U32(_) => Width::U32,
            Integer::U64(_) => Width::U64,
        }
    }

    /// The number, widened so that every width fits.
    pub fn to_i128(&self) -> (n: i128)
        ensures
            n == self.value(),
    {
        match self {
            Integer::I8(n) => *n as i128,
            Integer::I16(n) => *n as i128,
            Integer::I32(n) => *n as i128,
            Integer::I64(n) => *n as i128,
            Integer::U8(n) => *n as i128,
            Integer::U16(n) => *n as i128,
            Integer::U32(n) => *n as i128,
            Integer::U64(n) => *n as i128,
        }
    }

    /// Stores the number in another width. Succeeds exactly when the number
    /// fits there, and then keeps the number.
    pub fn narrow(&self, width: Width) -> (r: Option<Integer>)
        ensures
            r == self.spec_narrow(width),
            r matches Some(n) ==> n.width() == width && n.value() == self.value(),
    {
        let n: i128 = self.to_i128();
        if width.lower() <= n && n <= width.upper() {
            Some(
                match width {
                    Width::I8 => Integer::I8(n as i8),
                    Width::I16 => Integer::I16(n as i16),
                    Width::I32 => Integer::I32(n as i32),
                    Width::I64 => Integer::I64(n as i64),
                    Width::U8 => Integer::U8(n as u8),
                    Width::U16 => Integer::U16(n as u16),
                    Width::U32 => Integer::U32(n as u32),
                    Width::U64 => Integer::U64(n as u64),
                },
            )
        } else {
            None
        }
    }
}

/// What kind of value a node of the tree is, without what it holds.
#[derive(Clone, Copy, Debug, PartialEq, Eq, Structural)]
pub enum Tag {
    Unit,
    Bool,
    Char,
    Integer(Width),
    Float,
    String,
    Keyword,
    Name,
    List,
}

/// A node of the value tree. A float is held as the bit pattern of its
/// 64-bit IEEE 754 form; a symbol, of either flavor, as its index in the
/// symbol table.
#[derive(Debug, PartialEq, Eq)]
pub enum Value {
    Unit,
    Bool(bool),
    Char(char),
    Integer(Integer),
    Float(u64),
    String(String),
    Keyword(Name),
    Name(Name),
    List(Vec<Value>),
}

impl Value {
    /// The kind of this node.
    pub open spec fn spec_tag(&self) -> Tag {
        match *self {
            Value::Unit => Tag::Unit,
            Value::Bool(_) => Tag::Bool,
            Value::Char(_) => Tag::Char,
            Value::Integer(n) => Tag::Integer(n.width()),
            Value::Float(_) => Tag::Float,
            Value::String(_) => Tag::String,
            Value::Keyword(_) => Tag::Keyword,
            Value::Name(_) => Tag::Name,
            Value::List(_) => Tag::List,
        }
    }

    /// The kind of this node.
    #[verifier::when_used_as_spec(spec_tag)]
    pub fn tag(&self) -> (t: Tag)
        ensures
            t == self.spec_tag(),
    {
        match self {
            Value::Unit => Tag::Unit,
            Value::Bool(_) => Tag::Bool,
            Value::Char(_) => Tag::Char,
            Value::Integer(n) => Tag::Integer(n.width()),
            Value::Float(_) => Tag::Float,
            Value::String(_) => Tag::String,
            Value::Keyword(_) => Tag::Keyword,
            Value::Name(_) => Tag::Name,
            Value::List(_) => Tag::List,
        }
    }
}

} // verus!
