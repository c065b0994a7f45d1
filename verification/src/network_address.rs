use vstd::prelude::*;

verus! {

/// An IPv4 quad plus port.  The quad parts and the port are widened for
/// layout stability; conversion to and from real socket address types lives
/// with the socket code, outside the library.
#[derive(Clone, Copy, PartialEq, Eq, Structural, Hash, Debug)]
pub struct NetworkAddress {
    pub a: u16,
    pub b: u16,
    pub c: u16,
    pub d: u16,
    pub port: u32,
}

impl Default for NetworkAddress {
    /// The all-zero address; sending to a zero-port address means "use the
    /// connected socket".
    fn default() -> (r: Self)
        ensures
            r == (NetworkAddress { a: 0, b: 0, c: 0, d: 0, port: 0 }),
    {
        NetworkAddress { a: 0, b: 0, c: 0, d: 0, port: 0 }
    }
}

impl NetworkAddress {
    pub fn test_address() -> (r: Self)
        ensures
            r == (NetworkAddress { a: 127, b: 0, c: 0, d: 1, port: 8265 }),
    {
        NetworkAddress { a: 127, b: 0, c: 0, d: 1, port: 8265 }
    }

    pub fn broadcast(channel: u8) -> (r: Self)
        ensures
            r == (NetworkAddress { a: 255, b: 255, c: 255, d: 255, port: channel as u32 }),
    {
        NetworkAddress { a: 255, b: 255, c: 255, d: 255, port: channel as u32 }
    }

    pub fn localhost(port: u32) -> (r: Self)
        ensures
            r == (NetworkAddress { a: 127, b: 0, c: 0, d: 1, port: port }),
    {
        NetworkAddress { a: 127, b: 0, c: 0, d: 1, port: port }
    }

    pub fn mock_client_address() -> (r: Self)
        ensures
            r == (NetworkAddress { a: 127, b: 0, c: 0, d: 1, port: 4598 }),
    {
        NetworkAddress { a: 127, b: 0, c: 0, d: 1, port: 4598 }
    }

    pub fn is_default(&self) -> (r: bool)
        ensures
            r == (self.a == 0 && self.b == 0 && self.c == 0 && self.d == 0 && self.port == 0),
    {
        self.a == 0 && self.b == 0 && self.c == 0 && self.d == 0 && self.port == 0
    }

    pub fn is_broadcast(&self) -> (r: bool)
        ensures
            r == (self.a == 255 && self.b == 255 && self.c == 255 && self.d == 255),
    {
        self.a == 255 && self.b == 255 && self.c == 255 && self.d == 255
    }

    pub fn copy_from(&mut self, other: NetworkAddress)
        ensures
            *final(self) == other,
    {
        self.a = other.a;
        self.b = other.b;
        self.c = other.c;
        self.d = other.d;
        self.port = other.port;
    }

    /// Advisory mixing hash over the fields; never relied on for correctness.
    pub fn get_hash(&self) -> (r: u32)
        ensures
            r == spec_address_hash(*self),
    {
        let mut hash: u32 = 17;
        hash = hash.wrapping_mul(23).wrapping_add(self.a as u32);
        hash = hash.wrapping_mul(23).wrapping_add(self.b as u32);
        hash = hash.wrapping_mul(23).wrapping_add(self.c as u32);
        hash = hash.wrapping_mul(23).wrapping_add(self.d as u32);
        hash = hash.wrapping_mul(23).wrapping_add(self.port);
        hash
    }
}

pub open spec fn hash_mix(h: u32, v: u32) -> u32 {
    (((h * 23) % 0x1_0000_0000) as u32).wrapping_add(v)
}

pub open spec fn spec_address_hash(addr: NetworkAddress) -> u32 {
    hash_mix(
        hash_mix(hash_mix(hash_mix(hash_mix(17u32, addr.a as u32), addr.b as u32), addr.c as u32),
        addr.d as u32),
        addr.port,
    )
}

} // verus!
