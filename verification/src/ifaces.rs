//! Choosing the capture interface: the requested name when it exists, else
//! the first interface that is up, not a loopback and carries an IPv4
//! address; nothing when no such interface exists either (a fatal condition
//! at the caller). The decision works on plain facts about each interface;
//! enumerating the live interfaces is the surrounding program's job.
use vstd::prelude::*;

use crate::textfmt::str_eq;

verus! {

/// What the choice of a capture interface depends on.
pub struct InterfaceInfo {
    /// The interface's name.
    pub name: String,
    /// The interface is up.
    pub is_up: bool,
    /// The interface is a loopback.
    pub is_loopback: bool,
    /// The interface has at least one IPv4 address.
    pub has_ipv4: bool,
}

/// An interface the capture may fall back to: up, not a loopback, with an
/// IPv4 address.
pub open spec fn suitable(i: InterfaceInfo) -> bool {
    i.is_up && !i.is_loopback && i.has_ipv4
}

/// The first fallback-suitable interface, if any.
pub fn get_default_interface(ifaces: &Vec<InterfaceInfo>) -> (r: Option<usize>)
    ensures
        match r {
            Some(k) => 0 <= k < ifaces@.len() && suitable(ifaces@[k as int]) && (forall|j: int|
                0 <= j < k ==> !suitable(#[trigger] ifaces@[j])),
            None => forall|j: int| 0 <= j < ifaces@.len() ==> !suitable(#[trigger] ifaces@[j]),
        },
{
    let n = ifaces.len();
    let mut k: usize = 0;
    while k < n
        invariant
            n == ifaces@.len(),
            k <= n,
            forall|j: int| 0 <= j < k ==> !suitable(#[trigger] ifaces@[j]),
        decreases n - k,
    {
        let c = &ifaces[k];
        if c.is_up && !c.is_loopback && c.has_ipv4 {
            return Some(k);
        }
        k += 1;
    }
    None
}

/// The interface with the requested name, or the first fallback-suitable
/// one when no interface has that name, or nothing when neither exists.
pub fn get_interface(ifaces: &Vec<InterfaceInfo>, interface_name: &str) -> (r: Option<usize>)
    ensures
        (exists|j: int|
            0 <= j < ifaces@.len() && (#[trigger] ifaces@[j]).name@ == interface_name@) ==> match r {
            Some(k) => 0 <= k < ifaces@.len() && ifaces@[k as int].name@ == interface_name@ && (
            forall|j: int| 0 <= j < k ==> (#[trigger] ifaces@[j]).name@ != interface_name@),
            None => false,
        },
        !(exists|j: int|
            0 <= j < ifaces@.len() && (#[trigger] ifaces@[j]).name@ == interface_name@) ==> match r {
            Some(k) => 0 <= k < ifaces@.len() && suitable(ifaces@[k as int]) && (forall|j: int|
                0 <= j < k ==> !suitable(#[trigger] ifaces@[j])),
            None => forall|j: int| 0 <= j < ifaces@.len() ==> !suitable(#[trigger] ifaces@[j]),
        },
{
    let n = ifaces.len();
    let mut k: usize = 0;
    while k < n
        invariant
            n == ifaces@.len(),
            k <= n,
            forall|j: int| 0 <= j < k ==> (#[trigger] ifaces@[j]).name@ != interface_name@,
        decreases n - k,
    {
        if str_eq(ifaces[k].name.as_str(), interface_name) {
            return Some(k);
        }
        k += 1;
    }
    get_default_interface(ifaces)
}

} // verus!
