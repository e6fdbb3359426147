use vstd::prelude::*;

verus! {

/// An IP address: an IPv4 address as its 32-bit value, or an IPv6 address
/// as its 128-bit value (both in network order, most significant octet
/// first).
#[derive(Clone, Copy, Debug, PartialEq, Eq, Hash, Structural)]
pub enum IpAddress {
    V4(u32),
    V6(u128),
}

/// A set of IP addresses (the allow list, the deny list, the read-only
/// list).
pub struct AddressList {
    addrs: Vec<IpAddress>,
}

impl View for AddressList {
    type V = Set<IpAddress>;

    closed spec fn view(&self) -> Set<IpAddress> {
        Set::new(|a: IpAddress| self.addrs@.contains(a))
    }
}

impl AddressList {
    /// The empty list.
    pub fn new() -> (r: AddressList)
        ensures
            r@ == Set::<IpAddress>::empty(),
    {
        let r = AddressList { addrs: Vec::new() };
        assert(r@ =~= Set::<IpAddress>::empty());
        r
    }

    /// The set of the given addresses.
    pub fn from_addresses(addrs: Vec<IpAddress>) -> (r: AddressList)
        ensures
            r@ == addrs@.to_set(),
    {
        let r = AddressList { addrs };
        assert(r@ =~= addrs@.to_set());
        r
    }

    /// Whether `ip` is in the list.
    pub fn contains(&self, ip: IpAddress) -> (r: bool)
        ensures
            r == self@.contains(ip),
    {
        let n: usize = self.addrs.len();
        let mut i: usize = 0;
        while i < n
            invariant
                n == self.addrs.len(),
                0 <= i <= n,
                forall|j: int| 0 <= j < i ==> self.addrs@[j] != ip,
            decreases n - i,
        {
            if self.addrs[i] == ip {
                assert(self.addrs@.contains(ip)) by {
                    assert(self.addrs@[i as int] == ip);
                }
                return true;
            }
            i = i + 1;
        }
        false
    }

    /// Adds `ip` to the list (nothing changes when it is already there).
    pub fn insert(&mut self, ip: IpAddress)
        ensures
            final(self)@ == old(self)@.insert(ip),
    {
        if !self.contains(ip) {
            self.addrs.push(ip);
        }
        proof {
            let old_s = old(self).addrs@;
            let new_s = self.addrs@;
            assert forall|a: IpAddress| new_s.contains(a) <==> (old_s.contains(a) || a == ip) by {
                if new_s.len() > old_s.len() {
                    assert(new_s == old_s.push(ip));
                    if old_s.contains(a) {
                        let k = choose|k: int| 0 <= k < old_s.len() && old_s[k] == a;
                        assert(new_s[k] == a);
                    }
                    if a == ip {
                        assert(new_s[old_s.len() as int] == a);
                    }
                    if new_s.contains(a) && a != ip {
                        let k = choose|k: int| 0 <= k < new_s.len() && new_s[k] == a;
                        assert(k < old_s.len());
                        assert(old_s[k] == a);
                    }
                }
            }
            assert(self@ =~= old(self)@.insert(ip));
        }
    }

    /// Empties the list.
    pub fn clear(&mut self)
        ensures
            final(self)@ == Set::<IpAddress>::empty(),
    {
        self.addrs.clear();
        assert(self@ =~= Set::<IpAddress>::empty());
    }
}

} // verus!
