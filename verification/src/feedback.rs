//! Finding the buffer that a guest registered for a channel.
//!
//! A guest registers each shared buffer under an id, and the VM knows it by a
//! slot number. Before every operation on a channel the host has to resolve
//! the slot, make sure that the slot is mapped read-write, and fetch the mapped
//! bytes. The VM does the work; which question to put to it next, and when to
//! give up, is decided here, as a machine that turns the VM's last reply into
//! the next request.
//!
//! The resolved slot is cached for good. The mapping is not: a forked VM has
//! its own copy-on-write pages, so every operation asks again.

use vstd::prelude::*;
#[allow(unused_imports)]
use vstd::utf8::{encode_utf8, encode_utf8_decode_utf8};

use crate::file_store::FILE_STORE_BUFFER_ID;
use crate::fuzz_input::FUZZ_INPUT_BUFFER_ID;

verus! {

/// The channels that run over registered buffers.
#[derive(Debug, Clone, Copy, PartialEq, Eq, Structural)]
pub enum Channel {
    /// Testcases to the guest, and its reports on them.
    FuzzInput,
    /// Files from the guest.
    FileStore,
}

impl Channel {
    /// The text of the channel's id.
    pub open spec fn id_text(self) -> Seq<char> {
        match self {
            Channel::FuzzInput => FUZZ_INPUT_BUFFER_ID@,
            Channel::FileStore => FILE_STORE_BUFFER_ID@,
        }
    }

    /// The bytes that the guest registers the channel's buffer under.
    pub open spec fn spec_id(self) -> Seq<u8> {
        encode_utf8(self.id_text())
    }

    /// The bytes that the guest registers the channel's buffer under.
    pub fn id(&self) -> (id: &'static [u8])
        ensures
            id@ == self.spec_id(),
    {
        match self {
            Channel::FuzzInput => FUZZ_INPUT_BUFFER_ID.as_bytes(),
            Channel::FileStore => FILE_STORE_BUFFER_ID.as_bytes(),
        }
    }
}

/// No channel is found under the id of another.
pub proof fn law_channel_ids_differ(a: Channel, b: Channel)
    ensures
        a.spec_id() == b.spec_id() <==> a == b,
{
    reveal_strlit("fuzzamoto-input");
    reveal_strlit("bedrock-file-store");
    encode_utf8_decode_utf8(a.id_text());
    encode_utf8_decode_utf8(b.id_text());
}

/// What the VM is asked to do next.
#[derive(Debug, Clone, Copy, PartialEq, Eq, Structural)]
pub enum VmRequest {
    /// Look up the slots that are registered under the channel's id.
    FindSlots { channel: Channel },
    /// Say whether the slot is mapped read-write.
    CheckMapped { slot: usize },
    /// Map the slot read-write.
    MapSlot { slot: usize },
    /// Hand the slot's mapped bytes to the operation.
    Fetch { slot: usize },
}

/// What the VM answered to the last request.
#[derive(Debug)]
pub enum VmReply<E> {
    /// The slots under the channel's id, in the order of registration.
    Slots(Result<Vec<usize>, E>),
    /// Whether the slot is mapped.
    Mapping { slot: usize, mapped: bool },
    /// How mapping the slot went.
    Mapped { slot: usize, result: Result<(), E> },
}

/// Why an operation could not reach its buffer.
#[derive(Debug)]
pub enum Failure<E, C> {
    /// The VM failed, with its own error.
    Vm(E),
    /// The channel gave up, with the channel's error.
    Channel(C),
}

/// The slot that a lookup comes to: the cached one, else the first one found,
/// else the channel's `missing` error.
pub open spec fn resolved_slot<E, C>(
    cached: Option<usize>,
    found: Result<Vec<usize>, E>,
    missing: C,
) -> Result<usize, Failure<E, C>> {
    match cached {
        Some(slot) => Ok(slot),
        None => match found {
            Err(e) => Err(Failure::Vm(e)),
            Ok(slots) => if slots@.len() == 0 {
                Err(Failure::Channel(missing))
            } else {
                Ok(slots@[0])
            },
        },
    }
}

/// The cache after a lookup: whatever slot was resolved stays.
pub open spec fn cache_after<E>(cached: Option<usize>, found: Result<Vec<usize>, E>) -> Option<
    usize,
> {
    match resolved_slot(cached, found, ()) {
        Ok(slot) => Some(slot),
        Err(_) => cached,
    }
}

/// The first request of an operation on a channel.
pub open spec fn first_request(channel: Channel, cached: Option<usize>) -> VmRequest {
    match cached {
        Some(slot) => VmRequest::CheckMapped { slot },
        None => VmRequest::FindSlots { channel },
    }
}

/// The request that follows a reply.
pub open spec fn next_request<E, C>(
    cached: Option<usize>,
    reply: VmReply<E>,
    missing: C,
) -> Result<VmRequest, Failure<E, C>> {
    match reply {
        VmReply::Slots(found) => match resolved_slot(cached, found, missing) {
            Ok(slot) => Ok(VmRequest::CheckMapped { slot }),
            Err(e) => Err(e),
        },
        VmReply::Mapping { slot, mapped } => if mapped {
            Ok(VmRequest::Fetch { slot })
        } else {
            Ok(VmRequest::MapSlot { slot })
        },
        VmReply::Mapped { slot, result } => match result {
            Ok(_) => Ok(VmRequest::Fetch { slot }),
            Err(e) => Err(Failure::Vm(e)),
        },
    }
}

/// The cache after a reply: only a lookup can fill it.
pub open spec fn next_cache<E>(cached: Option<usize>, reply: VmReply<E>) -> Option<usize> {
    match reply {
        VmReply::Slots(found) => cache_after(cached, found),
        _ => cached,
    }
}

/// The slot of one channel's buffer, once it is known.
#[derive(Debug, Clone, Copy)]
pub struct SlotCache {
    slot: Option<usize>,
}

impl View for SlotCache {
    type V = Option<usize>;

    closed spec fn view(&self) -> Option<usize> {
        self.slot
    }
}

impl SlotCache {
    /// A cache that knows no slot yet.
    pub fn new() -> (cache: Self)
        ensures
            cache@ == None::<usize>,
    {
        SlotCache { slot: None }
    }

    /// The first request of an operation on a channel: straight to the cached
    /// slot's mapping, or the lookup by the channel's id that resolves the slot.
    pub fn begin(&self, channel: Channel) -> (request: VmRequest)
        ensures
            request == first_request(channel, self@),
    {
        match self.slot {
            Some(slot) => VmRequest::CheckMapped { slot },
            None => VmRequest::FindSlots { channel },
        }
    }

    /// Resolves (and caches) the slot from what the lookup found.
    pub fn resolve<E, C>(&mut self, found: Result<Vec<usize>, E>, missing: C) -> (slot: Result<
        usize,
        Failure<E, C>,
    >)
        ensures
            slot == resolved_slot(old(self)@, found, missing),
            final(self)@ == cache_after(old(self)@, found),
    {
        if let Some(slot) = self.slot {
            return Ok(slot);
        }
        match found {
            Err(e) => Err(Failure::Vm(e)),
            Ok(slots) => {
                if slots.len() == 0 {
                    Err(Failure::Channel(missing))
                } else {
                    let slot: usize = slots[0];
                    self.slot = Some(slot);
                    Ok(slot)
                }
            },
        }
    }

    /// Takes the VM's reply and says what to ask next. The walk is over when
    /// the request is a [`VmRequest::Fetch`].
    pub fn advance<E, C>(&mut self, reply: VmReply<E>, missing: C) -> (request: Result<
        VmRequest,
        Failure<E, C>,
    >)
        ensures
            request == next_request(old(self)@, reply, missing),
            final(self)@ == next_cache(old(self)@, reply),
    {
        match reply {
            VmReply::Slots(found) => match self.resolve(found, missing) {
                Ok(slot) => Ok(VmRequest::CheckMapped { slot }),
                Err(e) => Err(e),
            },
            VmReply::Mapping { slot, mapped } => {
                if mapped {
                    Ok(VmRequest::Fetch { slot })
                } else {
                    Ok(VmRequest::MapSlot { slot })
                }
            },
            VmReply::Mapped { slot, result } => match result {
                Ok(_) => Ok(VmRequest::Fetch { slot }),
                Err(e) => Err(Failure::Vm(e)),
            },
        }
    }
}

/// Every answer that one VM can give while an operation looks for its buffer.
pub struct VmAnswers<E> {
    /// What the lookup by an id finds.
    pub found: spec_fn(Seq<u8>) -> Result<Vec<usize>, E>,
    /// Whether a slot is mapped when the operation starts.
    pub mapped: spec_fn(usize) -> bool,
    /// How mapping a slot goes.
    pub mapping: spec_fn(usize) -> Result<(), E>,
    /// The VM's own bytes under a slot, when they are fetched.
    pub bytes: spec_fn(usize) -> Option<Seq<u8>>,
}

/// The reply of a VM to a request; none to the last one.
pub open spec fn reply_of<E>(vm: VmAnswers<E>, request: VmRequest) -> Option<VmReply<E>> {
    match request {
        VmRequest::FindSlots { channel } => Some(VmReply::Slots((vm.found)(channel.spec_id()))),
        VmRequest::CheckMapped { slot } => Some(
            VmReply::Mapping { slot, mapped: (vm.mapped)(slot) },
        ),
        VmRequest::MapSlot { slot } => Some(
            VmReply::Mapped { slot, result: (vm.mapping)(slot) },
        ),
        VmRequest::Fetch { slot } => None,
    }
}

/// Where replies of a VM lead from a cache and a request.
pub struct Walk<E, C> {
    /// The cache at the end.
    pub cached: Option<usize>,
    /// Every request that was put to the VM, in order.
    pub asked: Seq<VmRequest>,
    /// The last request, or the failure that ended the walk.
    pub end: Result<VmRequest, Failure<E, C>>,
}

/// Where `steps` replies of a VM lead from a cache and a request.
pub open spec fn walk<E, C>(
    vm: VmAnswers<E>,
    missing: C,
    cached: Option<usize>,
    request: VmRequest,
    steps: nat,
) -> Walk<E, C>
    decreases steps,
{
    let here = Walk { cached, asked: seq![request], end: Ok(request) };
    if steps == 0 {
        here
    } else {
        match reply_of(vm, request) {
            None => here,
            Some(reply) => match next_request(cached, reply, missing) {
                Err(e) => Walk { cached: next_cache(cached, reply), end: Err(e), ..here },
                Ok(next) => {
                    let rest = walk(
                        vm,
                        missing,
                        next_cache(cached, reply),
                        next,
                        (steps - 1) as nat,
                    );
                    Walk { asked: seq![request] + rest.asked, ..rest }
                },
            },
        }
    }
}

/// A whole operation's walk to the buffer of a channel.
pub open spec fn channel_walk<E, C>(
    vm: VmAnswers<E>,
    channel: Channel,
    missing: C,
    cached: Option<usize>,
) -> Walk<E, C> {
    walk(vm, missing, cached, first_request(channel, cached), 3)
}

/// What looking for a channel's buffer comes to: the resolved slot, mapped
/// before or mapped now, or the first failure on the way there.
pub open spec fn located<E, C>(
    vm: VmAnswers<E>,
    channel: Channel,
    missing: C,
    cached: Option<usize>,
) -> Result<usize, Failure<E, C>> {
    match resolved_slot(cached, (vm.found)(channel.spec_id()), missing) {
        Err(e) => Err(e),
        Ok(slot) => if (vm.mapped)(slot) {
            Ok(slot)
        } else {
            match (vm.mapping)(slot) {
                Ok(_) => Ok(slot),
                Err(e) => Err(Failure::Vm(e)),
            }
        },
    }
}

/// Whatever the VM answers, at most three replies lead from the first request
/// to the request to fetch the slot that is registered under the channel's id,
/// or to the first failure; and a slot that was resolved is cached, even when
/// mapping it then fails.
pub proof fn law_walk_locates_buffer<E, C>(
    vm: VmAnswers<E>,
    channel: Channel,
    missing: C,
    cached: Option<usize>,
)
    ensures
        channel_walk(vm, channel, missing, cached).cached == cache_after(
            cached,
            (vm.found)(channel.spec_id()),
        ),
        channel_walk(vm, channel, missing, cached).end == match located(
            vm,
            channel,
            missing,
            cached,
        ) {
            Ok(slot) => Ok::<_, Failure<E, C>>(VmRequest::Fetch { slot }),
            Err(e) => Err(e),
        },
{
    reveal_with_fuel(walk, 4);
}

/// A cached slot is never looked up again and never changes, whatever the VM
/// replies; but its mapping is checked anew in every operation.
pub proof fn law_cached_slot_stays<E>(channel: Channel, slot: usize, reply: VmReply<E>)
    ensures
        first_request(channel, Some(slot)) == (VmRequest::CheckMapped { slot }),
        next_cache(Some(slot), reply) == Some(slot),
{
}

/// With a cached slot, a VM that has the slot mapped is asked for that mapping
/// and the bytes, and one that has not, such as a fresh fork, is asked to map
/// the slot first; neither is asked to look anything up.
pub proof fn law_each_vm_maps_the_cached_slot<E, C>(
    vm: VmAnswers<E>,
    channel: Channel,
    missing: C,
    slot: usize,
)
    ensures
        ({
            let walk = channel_walk(vm, channel, missing, Some(slot));
            let check = VmRequest::CheckMapped { slot };
            let map = VmRequest::MapSlot { slot };
            let fetch = VmRequest::Fetch { slot };
            &&& walk.cached == Some(slot)
            &&& walk.asked == if (vm.mapped)(slot) {
                seq![check, fetch]
            } else if (vm.mapping)(slot) is Ok {
                seq![check, map, fetch]
            } else {
                seq![check, map]
            }
        }),
{
    reveal_with_fuel(walk, 4);
    let walk = channel_walk(vm, channel, missing, Some(slot));
    let check = VmRequest::CheckMapped { slot };
    let map = VmRequest::MapSlot { slot };
    let fetch = VmRequest::Fetch { slot };
    if (vm.mapped)(slot) {
        assert(walk.asked =~= seq![check, fetch]);
    } else if (vm.mapping)(slot) is Ok {
        assert(walk.asked =~= seq![check, map, fetch]);
    } else {
        assert(walk.asked =~= seq![check, map]);
    }
}

/// Nothing but a failure ends the walk short of the fetch: a buffer is fetched
/// exactly when a slot is resolved and that slot is mapped, before or now.
pub proof fn law_fetch_iff_mapped<E, C>(
    vm: VmAnswers<E>,
    channel: Channel,
    missing: C,
    cached: Option<usize>,
)
    ensures
        located(vm, channel, missing, cached) is Ok <==> {
            &&& resolved_slot(cached, (vm.found)(channel.spec_id()), missing) matches Ok(slot)
            &&& (vm.mapped)(slot) || (vm.mapping)(slot) is Ok
        },
        located(vm, channel, missing, cached) matches Ok(slot) ==> slot == resolved_slot(
            cached,
            (vm.found)(channel.spec_id()),
            missing,
        )->Ok_0,
{
}

/// The channels are found under the ids that guests know them by.
pub proof fn law_channels_have_their_ids()
    ensures
        Channel::FuzzInput.spec_id() == encode_utf8("fuzzamoto-input"@),
        Channel::FileStore.spec_id() == encode_utf8("bedrock-file-store"@),
{
}

/// A lookup comes to the slot that was registered first, however many there
/// are, and that slot is cached. A guest that registered none is the channel's
/// error, and a lookup that fails is the VM's; neither is cached. Once a slot is
/// cached, no lookup changes anything.
pub proof fn law_first_registered_slot_is_used<E, C>(
    slots: Vec<usize>,
    error: E,
    missing: C,
    cached: usize,
    found: Result<Vec<usize>, E>,
)
    ensures
        slots@.len() > 0 ==> {
            &&& resolved_slot(None, Ok::<_, E>(slots), missing) == Ok::<usize, Failure<E, C>>(
                slots@.first(),
            )
            &&& cache_after(None, Ok::<_, E>(slots)) == Some(slots@.first())
        },
        slots@.len() == 0 ==> {
            &&& resolved_slot(None, Ok::<_, E>(slots), missing) == Err::<usize, Failure<E, C>>(
                Failure::Channel(missing),
            )
            &&& cache_after(None, Ok::<_, E>(slots)) == None::<usize>
        },
        resolved_slot(None, Err(error), missing) == Err::<usize, Failure<E, C>>(
            Failure::Vm(error),
        ),
        cache_after(None, Err(error)) == None::<usize>,
        resolved_slot(Some(cached), found, missing) == Ok::<usize, Failure<E, C>>(cached),
        cache_after(Some(cached), found) == Some(cached),
{
}

/// Every question about a slot is followed by one about the same slot: a mapped
/// slot is fetched, one that is not is mapped, and one that was mapped is
/// fetched. A slot that cannot be mapped is the VM's error. Nothing but a lookup
/// touches the cache, and an operation without a cached slot starts with one by
/// its own channel.
pub proof fn law_requests_stay_with_their_slot<E, C>(
    channel: Channel,
    cached: Option<usize>,
    slot: usize,
    error: E,
    missing: C,
    mapped: bool,
    result: Result<(), E>,
)
    ensures
        first_request(channel, None) == (VmRequest::FindSlots { channel }),
        first_request(channel, Some(slot)) == (VmRequest::CheckMapped { slot }),
        next_request::<E, C>(cached, VmReply::Mapping { slot, mapped: true }, missing) == Ok::<
            _,
            Failure<E, C>,
        >(VmRequest::Fetch { slot }),
        next_request::<E, C>(cached, VmReply::Mapping { slot, mapped: false }, missing) == Ok::<
            _,
            Failure<E, C>,
        >(VmRequest::MapSlot { slot }),
        next_request(cached, VmReply::Mapped { slot, result: Ok::<(), E>(()) }, missing) == Ok::<
            _,
            Failure<E, C>,
        >(VmRequest::Fetch { slot }),
        next_request(cached, VmReply::Mapped { slot, result: Err(error) }, missing) == Err::<
            VmRequest,
            Failure<E, C>,
        >(Failure::Vm(error)),
        next_cache(cached, VmReply::<E>::Mapping { slot, mapped }) == cached,
        next_cache(cached, VmReply::Mapped { slot, result }) == cached,
{
}

/// What a lookup found decides the next request and the cache: the mapping of
/// the first registered slot is asked for, and an operation that finds none ends
/// there.
pub proof fn law_lookup_leads_to_its_slot<E, C>(
    slots: Vec<usize>,
    error: E,
    missing: C,
    cached: usize,
    found: Result<Vec<usize>, E>,
)
    ensures
        next_request(Some(cached), VmReply::Slots(found), missing) == Ok::<_, Failure<E, C>>(
            VmRequest::CheckMapped { slot: cached },
        ),
        slots@.len() > 0 ==> {
            &&& next_request(None, VmReply::Slots(Ok::<_, E>(slots)), missing) == Ok::<
                _,
                Failure<E, C>,
            >(VmRequest::CheckMapped { slot: slots@.first() })
            &&& next_cache(None, VmReply::Slots(Ok::<_, E>(slots))) == Some(slots@.first())
        },
        slots@.len() == 0 ==> {
            &&& next_request(None, VmReply::Slots(Ok::<_, E>(slots)), missing) == Err::<
                VmRequest,
                Failure<E, C>,
            >(Failure::Channel(missing))
            &&& next_cache(None, VmReply::Slots(Ok::<_, E>(slots))) == None::<usize>
        },
        next_request(None, VmReply::Slots(Err(error)), missing) == Err::<
            VmRequest,
            Failure<E, C>,
        >(Failure::Vm(error)),
        next_cache(None, VmReply::Slots(Err(error))) == None::<usize>,
{
}

} // verus!
