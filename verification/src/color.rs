//! The colour of a single pixel, stored in blue, green, red, alpha order.

use vstd::prelude::*;

verus! {

/// The colour of a single pixel.
///
/// A colour is one of three formats, told apart by how many bytes it takes:
/// grey scale (1), RGB (3) or RGBA (4). Its bytes are kept in the order in
/// which a raster stores them: blue, green, red, alpha.
#[derive(Debug, Clone, Copy, PartialEq, Eq)]
pub struct Color {
    bgra: [u8; 4],
    bytes_pp: usize,
}

impl View for Color {
    type V = Seq<u8>;

    /// The stored bytes of the colour, exactly as many as its format takes.
    closed spec fn view(&self) -> Seq<u8> {
        self.bgra@.subrange(0, self.bytes_pp as int)
    }
}

impl Color {
    /// The format is one of the three known ones and the bytes beyond it are zero,
    /// so that two colours with the same stored bytes are the same value.
    #[verifier::type_invariant]
    closed spec fn wf(&self) -> bool {
        &&& (self.bytes_pp == 1 || self.bytes_pp == 3 || self.bytes_pp == 4)
        &&& forall|i: int| self.bytes_pp <= i < 4 ==> self.bgra@[i] == 0u8
    }

    /// The colour that stored bytes stand for: one byte is a grey value,
    /// three are blue, green, red and four are blue, green, red, alpha. Any
    /// other number of bytes is no colour.
    pub closed spec fn from_bytes(bytes: Seq<u8>) -> Option<Color> {
        if bytes.len() == 1 {
            Some(Color { bgra: [bytes[0], 0, 0, 0], bytes_pp: 1 })
        } else if bytes.len() == 3 {
            Some(Color { bgra: [bytes[0], bytes[1], bytes[2], 0], bytes_pp: 3 })
        } else if bytes.len() == 4 {
            Some(Color { bgra: [bytes[0], bytes[1], bytes[2], bytes[3]], bytes_pp: 4 })
        } else {
            None
        }
    }

    /// Stored bytes stand for a colour exactly when there are one, three or
    /// four of them, and the colour then stores those bytes.
    pub proof fn lemma_from_bytes(bytes: Seq<u8>)
        ensures
            Color::from_bytes(bytes).is_some() <==> (bytes.len() == 1 || bytes.len() == 3
                || bytes.len() == 4),
            Color::from_bytes(bytes).is_some() ==> Color::from_bytes(bytes).unwrap()@ == bytes,
    {
        if Color::from_bytes(bytes).is_some() {
            assert(Color::from_bytes(bytes).unwrap()@ =~= bytes);
        }
    }

    /// Creates a new grey scale color
    pub fn grey_scale(v: u8) -> (c: Color)
        ensures
            c@ == seq![v],
            Color::from_bytes(seq![v]) == Some(c),
    {
        let c = Color { bgra: [v, 0, 0, 0], bytes_pp: 1 };
        assert(c@ =~= seq![v]);
        c
    }

    /// Creates a new RGB color
    pub fn rgb(r: u8, g: u8, b: u8) -> (c: Color)
        ensures
            c@ == seq![b, g, r],
            Color::from_bytes(seq![b, g, r]) == Some(c),
    {
        let c = Color { bgra: [b, g, r, 0], bytes_pp: 3 };
        assert(c@ =~= seq![b, g, r]);
        c
    }

    /// Creates a new RGBA color
    pub fn rgba(r: u8, g: u8, b: u8, a: u8) -> (c: Color)
        ensures
            c@ == seq![b, g, r, a],
            Color::from_bytes(seq![b, g, r, a]) == Some(c),
    {
        let c = Color { bgra: [b, g, r, a], bytes_pp: 4 };
        assert(c@ =~= seq![b, g, r, a]);
        c
    }

    /// The number of bytes that the colour's format takes: 1, 3 or 4.
    pub fn bytes_per_pixel(&self) -> (n: usize)
        ensures
            n == self@.len(),
            n == 1 || n == 3 || n == 4,
    {
        proof { use_type_invariant(self); }
        self.bytes_pp
    }

    /// Reads a colour from its stored bytes: one byte is a grey value, three
    /// are blue, green, red and four are blue, green, red, alpha. Any other
    /// length is no colour.
    pub fn try_from_slice(slice: &[u8]) -> (res: Option<Color>)
        ensures
            res == Color::from_bytes(slice@),
            res.is_some() <==> (slice@.len() == 1 || slice@.len() == 3 || slice@.len() == 4),
            res.is_some() ==> res.unwrap()@ == slice@,
    {
        if slice.len() == 1 {
            let c = Color::grey_scale(slice[0]);
            assert(seq![slice@[0]] =~= slice@);
            Some(c)
        } else if slice.len() == 3 {
            let c = Color::rgb(slice[2], slice[1], slice[0]);
            assert(seq![slice@[0], slice@[1], slice@[2]] =~= slice@);
            Some(c)
        } else if slice.len() == 4 {
            let c = Color::rgba(slice[2], slice[1], slice[0], slice[3]);
            assert(seq![slice@[0], slice@[1], slice@[2], slice@[3]] =~= slice@);
            Some(c)
        } else {
            None
        }
    }

    /// The stored bytes of the colour, exactly as many as its format takes.
    pub fn as_slice(&self) -> (s: &[u8])
        ensures
            s@ == self@,
            Color::from_bytes(s@) == Some(*self),
    {
        proof {
            use_type_invariant(self);
            let read = Color::from_bytes(self@).unwrap();
            assert(read.bgra@ =~= self.bgra@);
            assert(read.bgra =~= self.bgra);
            assert(read == *self);
        }
        let all: &[u8] = self.bgra.as_slice();
        vstd::slice::slice_subrange(all, 0, self.bytes_pp)
    }
}

impl Default for Color {
    /// A fully zeroed grey pixel.
    fn default() -> (c: Color)
        ensures
            c@ == seq![0u8],
            Color::from_bytes(seq![0u8]) == Some(c),
    {
        Color::grey_scale(0)
    }
}

} // verus!
