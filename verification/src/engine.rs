//! Attaching the packet programs to interfaces and taking them off again.

use crate::common::ArpKey;
use crate::iface;
use crate::mac;
use crate::mac::MacError;
use crate::names::NameMap;
use crate::net::Ipv4Addr;
use crate::packet;
use crate::packet::ByteOrder;
use crate::text;
use crate::xdp;
use vstd::prelude::*;

verus! {

/// What is known of an attached interface: the handle of its ingress program,
/// that of its egress program if it has one, and its table keys.
pub struct Attached<X, T> {
    pub link_id: X,
    pub tc_link_id: Option<T>,
    pub key: ArpKey,
    pub ifindex: u32,
}

/// The interfaces that the packet programs are attached to. `X` and `T` are
/// the handles of ingress and egress programs.
pub struct Dumbarp<X, T> {
    attached: NameMap<Attached<X, T>>,
}

/// Why an interface cannot be attached.
#[derive(Debug, Clone, Copy, PartialEq, Eq, Structural)]
pub enum AddError {
    AlreadyAttached,
    BadMac(MacError),
    BadIfindex,
}

/// The table key of an address on an interface.
pub open spec fn arp_key(ifindex: u32, ip: Ipv4Addr, order: ByteOrder) -> ArpKey {
    ArpKey { ifindex, ip: packet::loaded(order, ip.wire_bytes()) as u32 }
}

/// The identifier that packets are tagged with: zero stands for none.
pub fn enabled_id(dscp_id: Option<u8>) -> (r: Option<u8>)
    ensures
        r == match dscp_id {
            Some(id) if id != 0 => Some(id),
            _ => None,
        },
{
    match dscp_id {
        Some(id) => if id != 0 {
            Some(id)
        } else {
            None
        },
        None => None,
    }
}

/// A step of attaching an interface.
#[derive(Debug, Clone, Copy, PartialEq, Eq, Structural)]
pub enum AddStage {
    AttachXdp,
    OpenArpTable,
    InsertArp,
    OpenDscpTable,
    InsertDscp,
    AddQdisc,
    AttachEgress,
    UndoArp,
    UndoDscp,
    UndoXdp,
    /// Over, with everything in place.
    Done,
    /// Over, with the error of the step that failed.
    Failed,
}

/// The step after one that succeeded or failed. With `tagging` the interface
/// gets an identifier and an egress program.
pub open spec fn next_add(stage: AddStage, tagging: bool, ok: bool) -> AddStage {
    match stage {
        AddStage::AttachXdp => if ok {
            AddStage::OpenArpTable
        } else {
            AddStage::Failed
        },
        AddStage::OpenArpTable => if ok {
            AddStage::InsertArp
        } else {
            AddStage::Failed
        },
        AddStage::InsertArp => if !ok {
            AddStage::UndoXdp
        } else if tagging {
            AddStage::OpenDscpTable
        } else {
            AddStage::Done
        },
        AddStage::OpenDscpTable => if ok {
            AddStage::InsertDscp
        } else {
            AddStage::UndoArp
        },
        AddStage::InsertDscp => if ok {
            AddStage::AddQdisc
        } else {
            AddStage::UndoArp
        },
        AddStage::AddQdisc => AddStage::AttachEgress,
        AddStage::AttachEgress => if ok {
            AddStage::Done
        } else {
            AddStage::UndoArp
        },
        AddStage::UndoArp => AddStage::UndoDscp,
        AddStage::UndoDscp => AddStage::UndoXdp,
        AddStage::UndoXdp => AddStage::Failed,
        AddStage::Done => AddStage::Done,
        AddStage::Failed => AddStage::Failed,
    }
}

/// An interface that is being attached.
#[derive(Debug, Clone, Copy, PartialEq, Eq)]
pub struct Attachment {
    pub stage: AddStage,
    pub key: ArpKey,
    pub mac: [u8; 6],
    pub ifindex: u32,
    pub dscp_id: Option<u8>,
}

impl Attachment {
    /// Takes whether the current step succeeded.
    pub fn report(&mut self, ok: bool)
        ensures
            *final(self) == (Attachment {
                stage: next_add(old(self).stage, old(self).dscp_id is Some, ok),
                ..*old(self)
            }),
    {
        let next: AddStage = match self.stage {
            AddStage::AttachXdp => if ok {
                AddStage::OpenArpTable
            } else {
                AddStage::Failed
            },
            AddStage::OpenArpTable => if ok {
                AddStage::InsertArp
            } else {
                AddStage::Failed
            },
            AddStage::InsertArp => if !ok {
                AddStage::UndoXdp
            } else if self.dscp_id.is_some() {
                AddStage::OpenDscpTable
            } else {
                AddStage::Done
            },
            AddStage::OpenDscpTable => if ok {
                AddStage::InsertDscp
            } else {
                AddStage::UndoArp
            },
            AddStage::InsertDscp => if ok {
                AddStage::AddQdisc
            } else {
                AddStage::UndoArp
            },
            AddStage::AddQdisc => AddStage::AttachEgress,
            AddStage::AttachEgress => if ok {
                AddStage::Done
            } else {
                AddStage::UndoArp
            },
            AddStage::UndoArp => AddStage::UndoDscp,
            AddStage::UndoDscp => AddStage::UndoXdp,
            AddStage::UndoXdp => AddStage::Failed,
            AddStage::Done => AddStage::Done,
            AddStage::Failed => AddStage::Failed,
        };
        self.stage = next;
    }
}

/// A step of taking the programs off an interface.
#[derive(Debug, Clone, Copy, PartialEq, Eq, Structural)]
pub enum RemoveStage {
    DetachEgress,
    ClearDscp,
    ClearArp,
    DetachXdp,
    Done,
    Failed,
}

/// The first step for an interface with or without an egress program.
pub open spec fn first_remove(tagging: bool) -> RemoveStage {
    if tagging {
        RemoveStage::DetachEgress
    } else {
        RemoveStage::ClearArp
    }
}

/// The step after one that succeeded or failed. Of the egress program it only
/// matters that it exists, and clearing a table is not looked at.
pub open spec fn next_remove(stage: RemoveStage, ok: bool) -> RemoveStage {
    match stage {
        RemoveStage::DetachEgress => if ok {
            RemoveStage::ClearDscp
        } else {
            RemoveStage::Failed
        },
        RemoveStage::ClearDscp => RemoveStage::ClearArp,
        RemoveStage::ClearArp => RemoveStage::DetachXdp,
        RemoveStage::DetachXdp => if ok {
            RemoveStage::Done
        } else {
            RemoveStage::Failed
        },
        RemoveStage::Done => RemoveStage::Done,
        RemoveStage::Failed => RemoveStage::Failed,
    }
}

impl RemoveStage {
    pub fn start(tagging: bool) -> (stage: RemoveStage)
        ensures
            stage == first_remove(tagging),
    {
        if tagging {
            RemoveStage::DetachEgress
        } else {
            RemoveStage::ClearArp
        }
    }

    pub fn next(self, ok: bool) -> (stage: RemoveStage)
        ensures
            stage == next_remove(self, ok),
    {
        match self {
            RemoveStage::DetachEgress => if ok {
                RemoveStage::ClearDscp
            } else {
                RemoveStage::Failed
            },
            RemoveStage::ClearDscp => RemoveStage::ClearArp,
            RemoveStage::ClearArp => RemoveStage::DetachXdp,
            RemoveStage::DetachXdp => if ok {
                RemoveStage::Done
            } else {
                RemoveStage::Failed
            },
            RemoveStage::Done => RemoveStage::Done,
            RemoveStage::Failed => RemoveStage::Failed,
        }
    }
}

impl<X, T> View for Dumbarp<X, T> {
    type V = Map<Seq<char>, Attached<X, T>>;

    closed spec fn view(&self) -> Map<Seq<char>, Attached<X, T>> {
        self.attached@
    }
}

impl<X, T> Dumbarp<X, T> {
    /// The attached interfaces in the order of their names.
    pub closed spec fn names(self) -> Seq<Seq<char>> {
        self.attached.names()
    }

    pub fn new() -> (r: Self)
        ensures
            r@ == Map::<Seq<char>, Attached<X, T>>::empty(),
    {
        Dumbarp { attached: NameMap::new() }
    }

    pub fn is_attached(&self, iface: &str) -> (r: bool)
        ensures
            r == self@.dom().contains(iface@),
    {
        self.attached.contains(iface)
    }

    /// Starts attaching an interface, given what its address and index files
    /// hold.
    pub fn add_interface(
        &self,
        iface: &str,
        ip: Ipv4Addr,
        dscp_id: Option<u8>,
        mac_file: &str,
        ifindex_file: &str,
        order: ByteOrder,
    ) -> (r: Result<Attachment, AddError>)
        ensures
            ({
                let address = mac::mac_of(text::trimmed(mac_file@));
                let index = text::u32_of(text::trimmed(ifindex_file@));
                match r {
                    Ok(a) => {
                        &&& !self@.dom().contains(iface@)
                        &&& address == Ok::<Seq<u8>, MacError>(a.mac@)
                        &&& index == Some(a.ifindex as int)
                        &&& a.key == arp_key(a.ifindex, ip, order)
                        &&& a.dscp_id == dscp_id
                        &&& a.stage == AddStage::AttachXdp
                    },
                    Err(AddError::AlreadyAttached) => self@.dom().contains(iface@),
                    Err(AddError::BadMac(e)) => !self@.dom().contains(iface@) && address == Err::<
                        Seq<u8>,
                        MacError,
                    >(e),
                    Err(AddError::BadIfindex) => !self@.dom().contains(iface@) && address is Ok
                        && index is None,
                }
            }),
    {
        if self.attached.contains(iface) {
            return Err(AddError::AlreadyAttached);
        }
        let mac: [u8; 6] = match iface::iface_mac(mac_file) {
            Ok(m) => m,
            Err(e) => return Err(AddError::BadMac(e)),
        };
        let ifindex: u32 = match iface::iface_ifindex(ifindex_file) {
            Some(n) => n,
            None => return Err(AddError::BadIfindex),
        };
        let octets: [u8; 4] = ip.octets();
        let key = ArpKey { ifindex, ip: packet::load_u32(order, octets) };
        Ok(Attachment { stage: AddStage::AttachXdp, key, mac, ifindex, dscp_id })
    }

    /// Notes an interface whose attachment is done.
    pub fn attach_done(
        &mut self,
        iface: String,
        attachment: &Attachment,
        link_id: X,
        tc_link_id: Option<T>,
    )
        ensures
            final(self)@ == old(self)@.insert(
                iface@,
                Attached {
                    link_id,
                    tc_link_id,
                    key: attachment.key,
                    ifindex: attachment.ifindex,
                },
            ),
    {
        self.attached.insert(
            iface,
            Attached {
                link_id,
                tc_link_id,
                key: attachment.key,
                ifindex: attachment.ifindex,
            },
        );
    }

    /// Starts taking the programs off an interface: it no longer counts as
    /// attached, whatever follows. `None` if it was not attached.
    pub fn remove_interface(&mut self, iface: &str) -> (r: Option<(Attached<X, T>, RemoveStage)>)
        ensures
            final(self)@ == old(self)@.remove(iface@),
            match r {
                Some((a, stage)) => old(self)@.dom().contains(iface@) && a == old(self)@[iface@]
                    && stage == first_remove(a.tc_link_id is Some),
                None => !old(self)@.dom().contains(iface@),
            },
    {
        match self.attached.remove(iface) {
            Some(a) => {
                let stage = RemoveStage::start(a.tc_link_id.is_some());
                Some((a, stage))
            },
            None => None,
        }
    }

    /// The names of the attached interfaces, in order.
    pub fn attached_interfaces(&self) -> (r: Vec<String>)
        ensures
            text::texts(r@) == self.names(),
            crate::names::lists_names(self.names(), self@),
    {
        let len: usize = self.attached.len();
        let mut r: Vec<String> = Vec::new();
        let mut i: usize = 0;
        while i < len
            invariant
                i <= len == self.attached.names().len(),
                text::texts(r@) == self.attached.names().take(i as int),
            decreases len - i,
        {
            let ghost before = r@;
            r.push(self.attached.name_at(i).clone());
            assert(text::texts(r@) =~= self.attached.names().take(i + 1)) by {
                assert(text::texts(r@) =~= text::texts(before).push(
                    self.attached.names()[i as int],
                ));
            }
            i += 1;
        }
        assert(self.attached.names().take(i as int) =~= self.attached.names());
        r
    }
}

/// What stands in the kernel for an interface.
#[verifier::ext_equal]
pub struct KernelState {
    pub xdp: bool,
    pub arp: bool,
    pub dscp: bool,
    pub egress: bool,
}

pub open spec fn nothing_attached() -> KernelState {
    KernelState { xdp: false, arp: false, dscp: false, egress: false }
}

pub open spec fn all_attached(tagging: bool) -> KernelState {
    KernelState { xdp: true, arp: true, dscp: tagging, egress: tagging }
}

/// What a step of attaching does to the kernel when it succeeds.
pub open spec fn add_effect(k: KernelState, stage: AddStage) -> KernelState {
    match stage {
        AddStage::AttachXdp => KernelState { xdp: true, ..k },
        AddStage::InsertArp => KernelState { arp: true, ..k },
        AddStage::InsertDscp => KernelState { dscp: true, ..k },
        AddStage::AttachEgress => KernelState { egress: true, ..k },
        AddStage::UndoArp => KernelState { arp: false, ..k },
        AddStage::UndoDscp => KernelState { dscp: false, ..k },
        AddStage::UndoXdp => KernelState { xdp: false, ..k },
        _ => k,
    }
}

/// What a step of taking off does to the kernel when it succeeds.
pub open spec fn remove_effect(k: KernelState, stage: RemoveStage) -> KernelState {
    match stage {
        RemoveStage::DetachEgress => KernelState { egress: false, ..k },
        RemoveStage::ClearDscp => KernelState { dscp: false, ..k },
        RemoveStage::ClearArp => KernelState { arp: false, ..k },
        RemoveStage::DetachXdp => KernelState { xdp: false, ..k },
        _ => k,
    }
}

/// What stands in the kernel at each step of attaching: nothing once it has
/// failed, everything once it is done.
pub open spec fn add_progress(stage: AddStage, tagging: bool, k: KernelState) -> bool {
    match stage {
        AddStage::AttachXdp => k == nothing_attached(),
        AddStage::OpenArpTable | AddStage::InsertArp => k == (KernelState {
            xdp: true,
            ..nothing_attached()
        }),
        AddStage::OpenDscpTable | AddStage::InsertDscp => tagging && k == (KernelState {
            xdp: true,
            arp: true,
            ..nothing_attached()
        }),
        AddStage::AddQdisc | AddStage::AttachEgress => tagging && k == (KernelState {
            xdp: true,
            arp: true,
            dscp: true,
            egress: false,
        }),
        AddStage::UndoArp => k.xdp && k.arp && !k.egress,
        AddStage::UndoDscp => k.xdp && !k.arp && !k.egress,
        AddStage::UndoXdp => k == (KernelState { xdp: true, ..nothing_attached() }),
        AddStage::Done => k == all_attached(tagging),
        AddStage::Failed => k == nothing_attached(),
    }
}

/// Attaching an interface is all or nothing, whichever step fails, as long as
/// undoing does not fail and the ARP table exists: each step keeps to it.
pub proof fn law_attaching_is_all_or_nothing(
    stage: AddStage,
    tagging: bool,
    k: KernelState,
    ok: bool,
)
    requires
        add_progress(stage, tagging, k),
        stage is OpenArpTable || stage is UndoArp || stage is UndoDscp || stage is UndoXdp ==> ok,
    ensures
        add_progress(AddStage::AttachXdp, tagging, nothing_attached()),
        add_progress(
            next_add(stage, tagging, ok),
            tagging,
            if ok {
                add_effect(k, stage)
            } else {
                k
            },
        ),
{
}

/// What stands in the kernel at each step of taking off.
pub open spec fn remove_progress(stage: RemoveStage, tagging: bool, k: KernelState) -> bool {
    match stage {
        RemoveStage::DetachEgress => tagging && k == all_attached(true),
        RemoveStage::ClearDscp => tagging && k == (KernelState {
            egress: false,
            ..all_attached(true)
        }),
        RemoveStage::ClearArp => k == (KernelState {
            xdp: true,
            arp: true,
            ..nothing_attached()
        }),
        RemoveStage::DetachXdp => k == (KernelState { xdp: true, ..nothing_attached() }),
        RemoveStage::Done => k == nothing_attached(),
        RemoveStage::Failed => false,
    }
}

/// Taking the programs off undoes attaching them: where no step fails,
/// nothing stays behind.
pub proof fn law_removing_undoes_attaching(stage: RemoveStage, tagging: bool, k: KernelState)
    requires
        remove_progress(stage, tagging, k),
    ensures
        remove_progress(first_remove(tagging), tagging, all_attached(tagging)),
        remove_progress(next_remove(stage, true), tagging, remove_effect(k, stage)),
{
}

/// The entry of an address is the one that requests for the address and
/// packets to it are looked up under, on its interface alone: the four bytes
/// that a frame carries lead to it exactly if they are those of the address.
pub proof fn law_entries_are_found_by_what_frames_carry(
    frame: Seq<u8>,
    ifindex: u32,
    arrived_on: u32,
    ip: Ipv4Addr,
    order: ByteOrder,
)
    ensures
        frame.len() >= 42 && frame[14] == 0 && frame[15] == 1 && frame[16] == 8 && frame[17] == 0
            && frame[20] == 0 && frame[21] == 1 ==> (xdp::asked(frame, arrived_on, order) == Some(
            arp_key(ifindex, ip, order),
        ) <==> arrived_on == ifindex && frame.subrange(38, 42) == ip.wire_bytes()),
        frame.len() >= 34 ==> (xdp::destination(frame, arrived_on, order) == Some(
            arp_key(ifindex, ip, order),
        ) <==> arrived_on == ifindex && frame.subrange(30, 34) == ip.wire_bytes()),
{
    let own = ip.wire_bytes();
    packet::law_byte_order_tells_the_number(own);
    if frame.len() >= 42 {
        let target = frame.subrange(38, 42);
        packet::law_byte_order_tells_the_number(target);
        if packet::loaded(order, target) == packet::loaded(order, own) {
            packet::law_loading_tells_bytes_apart(order, target, own);
        }
    }
    if frame.len() >= 34 {
        let target = frame.subrange(30, 34);
        packet::law_byte_order_tells_the_number(target);
        if packet::loaded(order, target) == packet::loaded(order, own) {
            packet::law_loading_tells_bytes_apart(order, target, own);
        }
    }
}

/// Attaching takes the ingress program, the ARP table and its entry, and with
/// tagging also the table of identifiers and its entry, the queue and the
/// egress program, in this order, the queue whether or not it could be made.
pub proof fn law_attaching_takes_every_step()
    ensures
        next_add(AddStage::AttachXdp, true, true) is OpenArpTable,
        next_add(AddStage::AttachXdp, false, true) is OpenArpTable,
        next_add(AddStage::OpenArpTable, true, true) is InsertArp,
        next_add(AddStage::OpenArpTable, false, true) is InsertArp,
        next_add(AddStage::InsertArp, false, true) is Done,
        next_add(AddStage::InsertArp, true, true) is OpenDscpTable,
        next_add(AddStage::OpenDscpTable, true, true) is InsertDscp,
        next_add(AddStage::InsertDscp, true, true) is AddQdisc,
        forall|ok: bool| next_add(AddStage::AddQdisc, true, ok) is AttachEgress,
        next_add(AddStage::AttachEgress, true, true) is Done,
{
}

/// Taking off goes through every step, whether or not a table entry could be
/// cleared, and stops where a program does not come off.
pub proof fn law_taking_off_goes_through_every_step(ok: bool)
    ensures
        first_remove(true) is DetachEgress,
        first_remove(false) is ClearArp,
        next_remove(RemoveStage::DetachEgress, true) is ClearDscp,
        next_remove(RemoveStage::DetachEgress, false) is Failed,
        next_remove(RemoveStage::ClearDscp, ok) is ClearArp,
        next_remove(RemoveStage::ClearArp, ok) is DetachXdp,
        next_remove(RemoveStage::DetachXdp, true) is Done,
        next_remove(RemoveStage::DetachXdp, false) is Failed,
{
}

} // verus!
