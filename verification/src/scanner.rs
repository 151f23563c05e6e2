//! Finding the Raspberry Pi Pico among the serial ports: the first USB port
//! with the Pico's vendor and product id. Only one attached Pico is expected.

use vstd::prelude::*;

verus! {

/// USB vendor id of the Raspberry Pi Pico.
pub const PICO_VID: u16 = 0x2E8A;

/// USB product id of the Pico running MicroPython.
pub const PICO_PID: u16 = 0x0005;

/// What the search reads of a serial port: its name and, for a USB port,
/// its vendor and product id.
#[derive(Debug, Clone)]
pub struct PortInfo {
    pub port_name: String,
    pub usb_ids: Option<(u16, u16)>,
}

/// Whether a port is a Pico.
pub open spec fn is_pico(p: PortInfo) -> bool {
    p.usb_ids == Some((PICO_VID, PICO_PID))
}

/// The index of the first Pico among the ports, if any.
pub open spec fn first_pico(ports: Seq<PortInfo>) -> Option<int>
    decreases ports.len(),
{
    if ports.len() == 0 {
        None
    } else if is_pico(ports.last()) && first_pico(ports.drop_last()) is None {
        Some(ports.len() - 1)
    } else {
        first_pico(ports.drop_last())
    }
}

/// The first Pico index lies in range and points at a Pico, and no port
/// before it is one; `None` means no port is a Pico.
pub proof fn lemma_first_pico(ports: Seq<PortInfo>)
    ensures
        match first_pico(ports) {
            Some(k) => 0 <= k < ports.len() && is_pico(ports[k]) && forall|j: int|
                0 <= j < k ==> !is_pico(#[trigger] ports[j]),
            None => forall|j: int| 0 <= j < ports.len() ==> !is_pico(#[trigger] ports[j]),
        },
    decreases ports.len(),
{
    if ports.len() > 0 {
        lemma_first_pico(ports.drop_last());
        assert forall|j: int| 0 <= j < ports.len() - 1 implies ports.drop_last()[j] == ports[j] by {}
    }
}

/// The Pico is found by both of its ids: the port chosen is the first whose
/// USB vendor id is `0x2E8A` and product id `0x0005` (a port that matches in
/// only one id is never taken), and there is none exactly when no port has
/// both ids.
pub proof fn lemma_pico_by_both_ids(ports: Seq<PortInfo>)
    ensures
        match first_pico(ports) {
            Some(k) => 0 <= k < ports.len() && ports[k].usb_ids == Some((0x2E8Au16, 0x0005u16))
                && forall|j: int| 0 <= j < k ==> (#[trigger] ports[j]).usb_ids != Some((0x2E8Au16, 0x0005u16)),
            None => forall|j: int| 0 <= j < ports.len() ==> (#[trigger] ports[j]).usb_ids != Some((0x2E8Au16, 0x0005u16)),
        },
{
    lemma_first_pico(ports);
    match first_pico(ports) {
        Some(k) => {
            assert forall|j: int| 0 <= j < k implies (#[trigger] ports[j]).usb_ids != Some((0x2E8Au16, 0x0005u16)) by {
                assert(!is_pico(ports[j]));
            }
        },
        None => {
            assert forall|j: int| 0 <= j < ports.len() implies (#[trigger] ports[j]).usb_ids != Some((0x2E8Au16, 0x0005u16)) by {
                assert(!is_pico(ports[j]));
            }
        },
    }
}

/// The name of the first port that is a Pico, or `None` when no Pico is attached.
pub fn find_pico_port(ports: &Vec<PortInfo>) -> (r: Option<String>)
    ensures
        match first_pico(ports@) {
            Some(k) => r matches Some(name) && name@ == ports@[k].port_name@,
            None => r is None,
        },
        r matches Some(name) ==> exists|k: int|
            0 <= k < ports@.len() && ports@[k].usb_ids == Some((0x2E8Au16, 0x0005u16)) && name@
                == (#[trigger] ports@[k]).port_name@ && forall|j: int|
                0 <= j < k ==> (#[trigger] ports@[j]).usb_ids != Some((0x2E8Au16, 0x0005u16)),
        r is None <==> forall|j: int|
            0 <= j < ports@.len() ==> (#[trigger] ports@[j]).usb_ids != Some((0x2E8Au16, 0x0005u16)),
{
    proof {
        lemma_pico_by_both_ids(ports@);
    }
    let mut i: usize = 0;
    while i < ports.len()
        invariant
            i <= ports@.len(),
            first_pico(ports@.take(i as int)) is None,
        decreases ports@.len() - i,
    {
        proof {
            assert(ports@.take(i + 1).drop_last() =~= ports@.take(i as int));
        }
        let p = &ports[i];
        let hit = match p.usb_ids {
            Some((vid, pid)) => vid == PICO_VID && pid == PICO_PID,
            None => false,
        };
        if hit {
            proof {
                lemma_first_pico_prefix(ports@, i as int + 1);
                assert(first_pico(ports@.take(i + 1)) == Some(i as int));
                assert(ports@[i as int].port_name == p.port_name);
                assert(first_pico(ports@) == Some(i as int));
                lemma_pico_by_both_ids(ports@);
                assert(ports@[i as int].usb_ids == Some((0x2E8Au16, 0x0005u16)));
                assert(forall|j: int|
                    0 <= j < i ==> (#[trigger] ports@[j]).usb_ids != Some((0x2E8Au16, 0x0005u16)));
            }
            return Some(p.port_name.clone());
        }
        i = i + 1;
    }
    proof {
        assert(ports@.take(i as int) =~= ports@);
    }
    None
}

/// Once a prefix holds a Pico, the first Pico of the whole list is the
/// first Pico of that prefix.
proof fn lemma_first_pico_prefix(ports: Seq<PortInfo>, n: int)
    requires
        0 <= n <= ports.len(),
        first_pico(ports.take(n)) is Some,
    ensures
        first_pico(ports) == first_pico(ports.take(n)),
    decreases ports.len() - n,
{
    if n < ports.len() {
        assert(ports.take(n + 1).drop_last() =~= ports.take(n));
        lemma_first_pico_prefix(ports, n + 1);
    } else {
        assert(ports.take(n) =~= ports);
    }
}

} // verus!
