//! COM identity values of the text service and the answers of its COM
//! entry points: class object retrieval, instance creation and unloading.
use vstd::prelude::*;

verus! {

/// A COM GUID.
#[derive(Debug, Clone, Copy, PartialEq, Eq)]
pub struct Guid {
    data1: u32,
    data2: u16,
    data3: u16,
    data4: [u8; 8],
}

/// A GUID as plain values: its four fields.
pub type GuidView = (u32, u16, u16, Seq<u8>);

impl View for Guid {
    type V = GuidView;

    closed spec fn view(&self) -> GuidView {
        (self.data1, self.data2, self.data3, self.data4@)
    }
}

/// `S_OK`.
pub const S_OK: i32 = 0;

/// `E_POINTER` (0x8000_4003): a required pointer is missing.
pub const E_POINTER: i32 = -2147467261;

/// `E_NOINTERFACE` (0x8000_4002): the object does not have the interface.
pub const E_NOINTERFACE: i32 = -2147467262;

/// `CLASS_E_CLASSNOTAVAILABLE` (0x8004_0111): the class is not served here.
pub const CLASS_E_CLASSNOTAVAILABLE: i32 = -2147221231;

/// `CLASS_E_NOAGGREGATION` (0x8004_0110): aggregation is not supported.
pub const CLASS_E_NOAGGREGATION: i32 = -2147221232;

/// The text service's class id.
pub open spec fn text_service_clsid_view() -> GuidView {
    (0x7E4B71B0, 0x5C48, 0x45E8, seq![0x9Eu8, 0x4E, 0x4D, 0xFD, 0x16, 0xFE, 0x5E, 0x95])
}

/// The interface id of `IUnknown`.
pub open spec fn iid_iunknown_view() -> GuidView {
    (0, 0, 0, seq![0xC0u8, 0, 0, 0, 0, 0, 0, 0x46])
}

/// The interface id of `IClassFactory`.
pub open spec fn iid_iclass_factory_view() -> GuidView {
    (1, 0, 0, seq![0xC0u8, 0, 0, 0, 0, 0, 0, 0x46])
}

/// The interface id of `ITfTextInputProcessor`.
pub open spec fn iid_text_input_processor_view() -> GuidView {
    (0xAA80E801, 0x2021, 0x11D2, seq![0x93u8, 0xE0, 0x00, 0x60, 0xB0, 0x67, 0xB8, 0x6E])
}

/// The interface id of `ITfKeyEventSink`.
pub open spec fn iid_key_event_sink_view() -> GuidView {
    (0xAA80E7F5, 0x2021, 0x11D2, seq![0x93u8, 0xE0, 0x00, 0x60, 0xB0, 0x67, 0xB8, 0x6E])
}

/// What the class factory answers to a request for interface `iid`: it
/// hands itself out as `IUnknown` and `IClassFactory`.
pub open spec fn factory_answer(iid: GuidView) -> i32 {
    if iid == iid_iunknown_view() || iid == iid_iclass_factory_view() {
        S_OK
    } else {
        E_NOINTERFACE
    }
}

/// What a text service object answers to a request for interface `iid`:
/// it hands itself out as `IUnknown` and `ITfTextInputProcessor`, and its
/// key sink as `ITfKeyEventSink`.
pub open spec fn service_answer(iid: GuidView) -> i32 {
    if iid == iid_iunknown_view() || iid == iid_text_input_processor_view() || iid
        == iid_key_event_sink_view() {
        S_OK
    } else {
        E_NOINTERFACE
    }
}

impl Guid {
    /// Whether two GUIDs are equal.
    pub fn same_as(&self, other: &Guid) -> (r: bool)
        ensures
            r == (self@ == other@),
    {
        if self.data1 != other.data1 || self.data2 != other.data2 || self.data3 != other.data3 {
            return false;
        }
        let mut i: usize = 0;
        while i < 8
            invariant
                i <= 8,
                self.data4@.len() == 8,
                other.data4@.len() == 8,
                forall|j: int| 0 <= j < i ==> self.data4@[j] == other.data4@[j],
            decreases 8 - i,
        {
            if self.data4[i] != other.data4[i] {
                return false;
            }
            i += 1;
        }
        assert(self.data4@ =~= other.data4@);
        true
    }

    /// The text service's class id.
    pub fn text_service_clsid() -> (r: Guid)
        ensures
            r@ == text_service_clsid_view(),
    {
        let r = Guid {
            data1: 0x7E4B71B0,
            data2: 0x5C48,
            data3: 0x45E8,
            data4: [0x9E, 0x4E, 0x4D, 0xFD, 0x16, 0xFE, 0x5E, 0x95],
        };
        assert(r.data4@ =~= seq![0x9Eu8, 0x4E, 0x4D, 0xFD, 0x16, 0xFE, 0x5E, 0x95]);
        r
    }

    /// The interface id of `IUnknown`.
    pub fn iid_iunknown() -> (r: Guid)
        ensures
            r@ == iid_iunknown_view(),
    {
        let r = Guid { data1: 0, data2: 0, data3: 0, data4: [0xC0, 0, 0, 0, 0, 0, 0, 0x46] };
        assert(r.data4@ =~= seq![0xC0u8, 0, 0, 0, 0, 0, 0, 0x46]);
        r
    }

    /// The interface id of `IClassFactory`.
    pub fn iid_iclass_factory() -> (r: Guid)
        ensures
            r@ == iid_iclass_factory_view(),
    {
        let r = Guid { data1: 1, data2: 0, data3: 0, data4: [0xC0, 0, 0, 0, 0, 0, 0, 0x46] };
        assert(r.data4@ =~= seq![0xC0u8, 0, 0, 0, 0, 0, 0, 0x46]);
        r
    }

    /// The interface id of `ITfTextInputProcessor`.
    pub fn iid_text_input_processor() -> (r: Guid)
        ensures
            r@ == iid_text_input_processor_view(),
    {
        let r = Guid {
            data1: 0xAA80E801,
            data2: 0x2021,
            data3: 0x11D2,
            data4: [0x93, 0xE0, 0x00, 0x60, 0xB0, 0x67, 0xB8, 0x6E],
        };
        assert(r.data4@ =~= seq![0x93u8, 0xE0, 0x00, 0x60, 0xB0, 0x67, 0xB8, 0x6E]);
        r
    }

    /// The interface id of `ITfKeyEventSink`.
    pub fn iid_key_event_sink() -> (r: Guid)
        ensures
            r@ == iid_key_event_sink_view(),
    {
        let r = Guid {
            data1: 0xAA80E7F5,
            data2: 0x2021,
            data3: 0x11D2,
            data4: [0x93, 0xE0, 0x00, 0x60, 0xB0, 0x67, 0xB8, 0x6E],
        };
        assert(r.data4@ =~= seq![0x93u8, 0xE0, 0x00, 0x60, 0xB0, 0x67, 0xB8, 0x6E]);
        r
    }

    /// The first field.
    pub closed spec fn first(&self) -> u32 {
        self.data1
    }

    /// Whether every field but the first is zero.
    pub closed spec fn rest_is_zero(&self) -> bool {
        self.data2 == 0 && self.data3 == 0 && forall|i: int| 0 <= i < 8 ==> self.data4@[i] == 0
    }

    /// A GUID whose first field is `data1` and whose other fields are zero.
    pub fn for_test(data1: u32) -> (r: Guid)
        ensures
            r.first() == data1,
            r.rest_is_zero(),
    {
        Guid { data1, data2: 0, data3: 0, data4: [0, 0, 0, 0, 0, 0, 0, 0] }
    }
}

/// What the class factory answers to a request for interface `iid`.
fn factory_query_interface(iid: &Guid) -> (r: i32)
    ensures
        r == factory_answer(iid@),
{
    if iid.same_as(&Guid::iid_iunknown()) || iid.same_as(&Guid::iid_iclass_factory()) {
        S_OK
    } else {
        E_NOINTERFACE
    }
}

/// What a text service object answers to a request for interface `iid`.
fn service_query_interface(iid: &Guid) -> (r: i32)
    ensures
        r == service_answer(iid@),
{
    if iid.same_as(&Guid::iid_iunknown()) || iid.same_as(&Guid::iid_text_input_processor())
        || iid.same_as(&Guid::iid_key_event_sink()) {
        S_OK
    } else {
        E_NOINTERFACE
    }
}

/// The answer to a request for the class object of `class_id` with
/// interface `interface_id`, given whether the caller passed somewhere to
/// put it: `E_POINTER` when any of the three is missing,
/// `CLASS_E_CLASSNOTAVAILABLE` for a class other than the text service's,
/// and otherwise the class factory's answer for the interface.
pub fn get_class_object(class_id: Option<&Guid>, interface_id: Option<&Guid>, has_object: bool) -> (r:
    i32)
    ensures
        class_id is None || interface_id is None || !has_object ==> r == E_POINTER,
        class_id matches Some(c) ==> (interface_id matches Some(i) ==> (has_object ==> r == (
        if c@ == text_service_clsid_view() {
            factory_answer(i@)
        } else {
            CLASS_E_CLASSNOTAVAILABLE
        }))),
{
    match (class_id, interface_id) {
        (Some(c), Some(i)) => {
            if !has_object {
                return E_POINTER;
            }
            if !c.same_as(&Guid::text_service_clsid()) {
                return CLASS_E_CLASSNOTAVAILABLE;
            }
            factory_query_interface(i)
        },
        _ => E_POINTER,
    }
}

/// The answer of the class factory's `CreateInstance` for interface
/// `interface_id`, given whether an outer object was passed and whether the
/// caller passed somewhere to put the instance: `E_POINTER` when the
/// interface or the destination is missing, `CLASS_E_NOAGGREGATION` for an
/// outer object, and otherwise the new text service's answer for the
/// interface.
pub fn create_instance(has_outer: bool, interface_id: Option<&Guid>, has_object: bool) -> (r: i32)
    ensures
        interface_id is None || !has_object ==> r == E_POINTER,
        interface_id matches Some(i) ==> (has_object ==> r == (if has_outer {
            CLASS_E_NOAGGREGATION
        } else {
            service_answer(i@)
        })),
{
    match interface_id {
        Some(i) => {
            if !has_object {
                return E_POINTER;
            }
            if has_outer {
                return CLASS_E_NOAGGREGATION;
            }
            service_query_interface(i)
        },
        None => E_POINTER,
    }
}

/// Whether COM can unload the DLL: no live objects and no server locks.
pub fn can_unload(object_count: u32, lock_count: u32) -> (r: bool)
    ensures
        r == (object_count == 0 && lock_count == 0),
{
    object_count == 0 && lock_count == 0
}

} // verus!
