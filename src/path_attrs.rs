//! Path attributes and the typed builders for the well-known attributes.
use vstd::prelude::*;
use std::marker::PhantomData;
use crate::errors::{NotifErrorCode, UpdateMsgErrSubcode};
use crate::octets::{be_bytes, be_octets, ip_octets, IpAddress};

verus! {

pub const ORIGIN: u8 = 1;
pub const AS_PATH: u8 = 2;
pub const NEXT_HOP: u8 = 3;
pub const MED: u8 = 4;
pub const LOCAL_PREF: u8 = 5;
pub const ATOMIC_AGGREGATE: u8 = 6;
pub const AGGREGATOR: u8 = 7;

/// Attribute flag bits.
pub const OPTIONAL_BIT: u8 = 0x80;
pub const TRANSITIVE_BIT: u8 = 0x40;
pub const PARTIAL_BIT: u8 = 0x20;
pub const EXTENDED_BIT: u8 = 0x10;

/// Standard (one octet) or extended (two octets) attribute length.
#[derive(Debug, Clone, Copy, PartialEq, Eq, Structural, Hash)]
pub enum PathAttrLen {
    Std(u8),
    Ext(u16),
}

/// The value a length field carries.
pub open spec fn len_value(l: PathAttrLen) -> nat {
    match l {
        PathAttrLen::Std(x) => x as nat,
        PathAttrLen::Ext(x) => x as nat,
    }
}

/// A path attribute as plain values.
pub struct PathAttrModel {
    pub flags: u8,
    pub type_code: u8,
    pub len: PathAttrLen,
    pub value: Seq<u8>,
}

#[derive(Debug, PartialEq, Eq, Hash)]
pub struct PathAttr {
    attr_flags: u8,
    attr_type_code: u8,
    attr_len: PathAttrLen,
    attr_value: Vec<u8>,
}

impl View for PathAttr {
    type V = PathAttrModel;

    closed spec fn view(&self) -> PathAttrModel {
        PathAttrModel {
            flags: self.attr_flags,
            type_code: self.attr_type_code,
            len: self.attr_len,
            value: self.attr_value@,
        }
    }
}

/// Number of octets the attribute takes on the wire.
pub open spec fn attr_wire_len(a: PathAttrModel) -> nat {
    2 + match a.len {
        PathAttrLen::Std(_) => 1nat,
        PathAttrLen::Ext(_) => 2nat,
    } + a.value.len()
}

/// The Extended-Length bit is set.
pub open spec fn has_ext_bit(flags: u8) -> bool {
    flags & EXTENDED_BIT != 0
}

/// The Partial bit is set.
pub open spec fn has_partial_bit(flags: u8) -> bool {
    flags & PARTIAL_BIT != 0
}

/// The Optional bit is set.
pub open spec fn is_optional(flags: u8) -> bool {
    flags & OPTIONAL_BIT != 0
}

/// The four unused flag bits are zero.
pub open spec fn low_bits_clear(flags: u8) -> bool {
    flags & 0x0F == 0
}

/// A well-formed attribute: unused flag bits zero, the extended length form
/// exactly when the Extended-Length bit is set, and a length that counts the
/// value.
pub open spec fn attr_wf(a: PathAttrModel) -> bool {
    &&& low_bits_clear(a.flags)
    &&& (has_ext_bit(a.flags) <==> a.len is Ext)
    &&& len_value(a.len) == a.value.len()
}

/// The flags the builders set (none, transitive, optional, or both) and the
/// Extended-Length bit alone.
pub proof fn lemma_builder_flags_clean()
    ensures
        low_bits_clear(0) && !has_ext_bit(0) && !has_partial_bit(0) && !is_optional(0),
        low_bits_clear(0x40) && !has_ext_bit(0x40) && !has_partial_bit(0x40) && !is_optional(0x40),
        low_bits_clear(0x80) && !has_ext_bit(0x80) && !has_partial_bit(0x80) && is_optional(0x80),
        low_bits_clear(0xC0) && !has_ext_bit(0xC0) && !has_partial_bit(0xC0) && is_optional(0xC0),
        low_bits_clear(0x10) && has_ext_bit(0x10) && !has_partial_bit(0x10) && !is_optional(0x10),
{
    assert(0u8 & 0x0F == 0 && 0u8 & 0x10 == 0 && 0u8 & 0x20 == 0 && 0u8 & 0x80 == 0) by (bit_vector);
    assert(0x40u8 & 0x0F == 0 && 0x40u8 & 0x10 == 0 && 0x40u8 & 0x20 == 0 && 0x40u8 & 0x80 == 0) by (bit_vector);
    assert(0x80u8 & 0x0F == 0 && 0x80u8 & 0x10 == 0 && 0x80u8 & 0x20 == 0 && 0x80u8 & 0x80 != 0) by (bit_vector);
    assert(0xC0u8 & 0x0F == 0 && 0xC0u8 & 0x10 == 0 && 0xC0u8 & 0x20 == 0 && 0xC0u8 & 0x80 != 0) by (bit_vector);
    assert(0x10u8 & 0x0F == 0 && 0x10u8 & 0x10 != 0 && 0x10u8 & 0x20 == 0 && 0x10u8 & 0x80 == 0) by (bit_vector);
}

/// Whether the length field counts `len` octets.
fn len_matches(l: PathAttrLen, len: usize) -> (r: bool)
    ensures
        r == (len_value(l) == len),
{
    match l {
        PathAttrLen::Std(x) => x as usize == len,
        PathAttrLen::Ext(x) => x as usize == len,
    }
}

impl PathAttr {
    #[verifier::type_invariant]
    spec fn inv(self) -> bool {
        attr_wf(self@)
    }

    /// A well-formed attribute from its parts.
    fn make(attr_flags: u8, attr_type_code: u8, attr_len: PathAttrLen, attr_value: Vec<u8>) -> (r: Self)
        requires
            attr_wf(PathAttrModel { flags: attr_flags, type_code: attr_type_code, len: attr_len, value: attr_value@ }),
        ensures
            r@ == (PathAttrModel { flags: attr_flags, type_code: attr_type_code, len: attr_len, value: attr_value@ }),
    {
        PathAttr { attr_flags, attr_type_code, attr_len, attr_value }
    }

    /// An attribute with no flag set but the Extended-Length bit of an
    /// extended length; refused when the length does not count the value.
    pub fn new(attr_type_code: u8, attr_len: PathAttrLen, attr_value: Vec<u8>) -> (r: Result<Self, NotifErrorCode>)
        ensures
            r is Err <==> len_value(attr_len) != attr_value@.len(),
            r matches Err(e) ==> e == NotifErrorCode::UpdateMessageError(UpdateMsgErrSubcode::AttrLengthError),
            r matches Ok(a) ==> a@ == (PathAttrModel {
                flags: if attr_len is Ext { EXTENDED_BIT } else { 0 },
                type_code: attr_type_code,
                len: attr_len,
                value: attr_value@,
            }),
    {
        if !len_matches(attr_len, attr_value.len()) {
            return Err(NotifErrorCode::UpdateMessageError(UpdateMsgErrSubcode::AttrLengthError));
        }
        proof {
            lemma_builder_flags_clean();
        }
        let flags: u8 = match attr_len {
            PathAttrLen::Std(_) => 0,
            PathAttrLen::Ext(_) => EXTENDED_BIT,
        };
        Ok(PathAttr::make(flags, attr_type_code, attr_len, attr_value))
    }

    /// An attribute as carried on the wire. Refused with a flags error when
    /// an unused bit is set or the Extended-Length bit disagrees with the
    /// length form, else with a length error when the length does not count
    /// the value.
    pub fn from_parts(attr_flags: u8, attr_type_code: u8, attr_len: PathAttrLen, attr_value: Vec<u8>) -> (r: Result<Self, NotifErrorCode>)
        ensures
            r is Ok <==> attr_wf(PathAttrModel { flags: attr_flags, type_code: attr_type_code, len: attr_len, value: attr_value@ }),
            r matches Err(e) ==> e == if low_bits_clear(attr_flags) && (has_ext_bit(attr_flags) <==> attr_len is Ext) {
                NotifErrorCode::UpdateMessageError(UpdateMsgErrSubcode::AttrLengthError)
            } else {
                NotifErrorCode::UpdateMessageError(UpdateMsgErrSubcode::AttrFlagsError)
            },
            r matches Ok(a) ==> a@ == (PathAttrModel { flags: attr_flags, type_code: attr_type_code, len: attr_len, value: attr_value@ }),
    {
        let ext = match attr_len {
            PathAttrLen::Std(_) => false,
            PathAttrLen::Ext(_) => true,
        };
        if attr_flags & 0x0F != 0 || (attr_flags & EXTENDED_BIT != 0) != ext {
            return Err(NotifErrorCode::UpdateMessageError(UpdateMsgErrSubcode::AttrFlagsError));
        }
        if !len_matches(attr_len, attr_value.len()) {
            return Err(NotifErrorCode::UpdateMessageError(UpdateMsgErrSubcode::AttrLengthError));
        }
        Ok(PathAttr::make(attr_flags, attr_type_code, attr_len, attr_value))
    }

    pub fn attr_type_code(&self) -> (r: u8)
        ensures
            r == self@.type_code,
    {
        self.attr_type_code
    }

    /// The flags; the unused bits are zero and the Extended-Length bit is
    /// set exactly for an extended length.
    pub fn attr_flags(&self) -> (r: u8)
        ensures
            r == self@.flags,
            r & 0x0F == 0,
            (r & EXTENDED_BIT != 0) <==> self@.len is Ext,
    {
        proof {
            use_type_invariant(self);
        }
        self.attr_flags
    }

    /// The length field, which counts the value.
    pub fn attr_len(&self) -> (r: &PathAttrLen)
        ensures
            *r == self@.len,
            len_value(*r) == self@.value.len(),
    {
        proof {
            use_type_invariant(self);
        }
        &self.attr_len
    }

    pub fn attr_value(&self) -> (r: &[u8])
        ensures
            r@ == self@.value,
    {
        self.attr_value.as_slice()
    }

    /// Octets taken on the wire: flags, type, length field and value.
    pub fn byte_len(&self) -> (r: usize)
        requires
            self@.value.len() + 4 <= usize::MAX,
        ensures
            r == attr_wire_len(self@),
    {
        let l: usize = match self.attr_len {
            PathAttrLen::Std(_) => 1,
            PathAttrLen::Ext(_) => 2,
        };
        2 + l + self.attr_value.len()
    }

    /// Same as `byte_len`.
    pub fn attr_len_octets(&self) -> (r: usize)
        requires
            self@.value.len() + 4 <= usize::MAX,
        ensures
            r == attr_wire_len(self@),
    {
        self.byte_len()
    }

    /// Equality of the plain values.
    pub fn same_as(&self, other: &PathAttr) -> (r: bool)
        ensures
            r == (self@ == other@),
    {
        if self.attr_flags != other.attr_flags || self.attr_type_code != other.attr_type_code
            || self.attr_len != other.attr_len || self.attr_value.len() != other.attr_value.len() {
            return false;
        }
        let mut i: usize = 0;
        while i < self.attr_value.len()
            invariant
                self.attr_value@.len() == other.attr_value@.len(),
                i <= self.attr_value@.len(),
                forall|j: int| 0 <= j < i ==> self.attr_value@[j] == other.attr_value@[j],
            decreases self.attr_value@.len() - i,
        {
            if self.attr_value[i] != other.attr_value[i] {
                return false;
            }
            i = i + 1;
        }
        assert(self.attr_value@ =~= other.attr_value@);
        true
    }
}

/// A clone of an attribute keeps its plain values.
pub fn clone_attr(a: &PathAttr) -> (r: PathAttr)
    ensures
        r@ == a@,
{
    proof {
        use_type_invariant(a);
    }
    PathAttr::make(a.attr_flags, a.attr_type_code, a.attr_len, a.attr_value.clone())
}

impl Clone for PathAttr {
    fn clone(&self) -> (r: Self)
        ensures
            r@ == self@,
    {
        clone_attr(self)
    }
}

/// Clones a list of attributes, keeping their plain values.
pub fn clone_attrs(v: &[PathAttr]) -> (r: Vec<PathAttr>)
    ensures
        r@.map_values(|a: PathAttr| a@) == v@.map_values(|a: PathAttr| a@),
{
    let mut out: Vec<PathAttr> = Vec::new();
    let mut i: usize = 0;
    while i < v.len()
        invariant
            i <= v@.len(),
            out@.map_values(|a: PathAttr| a@) == v@.subrange(0, i as int).map_values(|a: PathAttr| a@),
        decreases v@.len() - i,
    {
        out.push(clone_attr(&v[i]));
        assert(v@.subrange(0, i + 1).map_values(|a: PathAttr| a@) =~= v@.subrange(0, i as int).map_values(|a: PathAttr| a@).push(v@[i as int]@));
        i = i + 1;
    }
    assert(v@.subrange(0, v@.len() as int) =~= v@);
    out
}

/// Builder for one attribute; the marker type selects the attribute kind.
pub struct PathAttrBuilder<T> {
    _marker: PhantomData<T>,
    attr_type_code: u8,
    attr_len: PathAttrLen,
    attr_value: Vec<u8>,
}

impl<T> PathAttrBuilder<T> {
    pub fn new() -> (r: Self)
        ensures
            r.value() == Seq::<u8>::empty(),
            r.len_field() == PathAttrLen::Std(0),
    {
        PathAttrBuilder {
            _marker: PhantomData,
            attr_type_code: 0,
            attr_len: PathAttrLen::Std(0),
            attr_value: Vec::new(),
        }
    }

    /// Value octets collected so far.
    pub closed spec fn value(&self) -> Seq<u8> {
        self.attr_value@
    }

    /// Length field collected so far.
    pub closed spec fn len_field(&self) -> PathAttrLen {
        self.attr_len
    }
}

/// Yields a structurally valid attribute.
pub trait PaBuilder: Sized {
    spec fn built(self) -> PathAttrModel;

    spec fn can_build(self) -> bool;

    fn build(self) -> (r: PathAttr)
        requires
            self.can_build(),
        ensures
            r@ == self.built(),
    ;
}

// ** ORIGIN **
pub struct Origin;

#[derive(Debug, Clone, Copy, PartialEq, Eq, Structural)]
pub enum OriginValue {
    Igp,
    Egp,
    Incomplete,
}

pub open spec fn origin_value(o: OriginValue) -> u8 {
    match o {
        OriginValue::Igp => 0,
        OriginValue::Egp => 1,
        OriginValue::Incomplete => 2,
    }
}

impl OriginValue {
    pub fn value(&self) -> (r: u8)
        ensures
            r == origin_value(*self),
    {
        match self {
            OriginValue::Igp => 0,
            OriginValue::Egp => 1,
            OriginValue::Incomplete => 2,
        }
    }
}

impl From<OriginValue> for u8 {
    fn from(value: OriginValue) -> (r: u8) {
        value.value()
    }
}

impl vstd::std_specs::convert::FromSpecImpl<OriginValue> for u8 {
    open spec fn obeys_from_spec() -> bool {
        true
    }

    open spec fn from_spec(v: OriginValue) -> u8 {
        origin_value(v)
    }
}

impl PathAttrBuilder<Origin> {
    /// Sets the ORIGIN value.
    pub fn origin(self, val: OriginValue) -> (r: Self)
        ensures
            r.value() == seq![origin_value(val)],
            r.len_field() == self.len_field(),
    {
        let mut s = self;
        let mut v: Vec<u8> = Vec::new();
        v.push(val.value());
        s.attr_value = v;
        assert(s.attr_value@ =~= seq![origin_value(val)]);
        s
    }
}

impl PaBuilder for PathAttrBuilder<Origin> {
    open spec fn can_build(self) -> bool {
        self.value().len() == 1
    }

    open spec fn built(self) -> PathAttrModel {
        PathAttrModel { flags: TRANSITIVE_BIT, type_code: ORIGIN, len: PathAttrLen::Std(1), value: self.value() }
    }

    fn build(self) -> (r: PathAttr) {
        proof {
            lemma_builder_flags_clean();
        }
        PathAttr::make(TRANSITIVE_BIT, ORIGIN, PathAttrLen::Std(1), self.attr_value)
    }
}

// ** AS_PATH **
pub struct AsPath;

/// One AS_PATH segment (RFC 4271 4.3): an ordered sequence or an unordered set of ASes.
#[derive(Debug, Clone, PartialEq, Eq)]
pub enum AsSegment {
    AsSequence(Vec<u16>),
    AsSet(Vec<u16>),
}

pub const AS_SET: u8 = 1;
pub const AS_SEQUENCE: u8 = 2;

/// Segment type and ASes of a segment.
pub open spec fn segment_parts(s: AsSegment) -> (u8, Seq<u16>) {
    match s {
        AsSegment::AsSequence(v) => (AS_SEQUENCE, v@),
        AsSegment::AsSet(v) => (AS_SET, v@),
    }
}

/// The ASes as two octets each.
pub open spec fn as_octets(ases: Seq<u16>) -> Seq<u8>
    decreases ases.len(),
{
    if ases.len() == 0 {
        Seq::empty()
    } else {
        as_octets(ases.drop_last()) + be_octets(ases.last() as nat, 2)
    }
}

/// Wire form of one segment: type, AS count, ASes.
pub open spec fn segment_octets(seg_type: u8, ases: Seq<u16>) -> Seq<u8> {
    seq![seg_type, ases.len() as u8] + as_octets(ases)
}

/// Wire form of a list of segments.
pub open spec fn segments_octets(segs: Seq<AsSegment>) -> Seq<u8>
    decreases segs.len(),
{
    if segs.len() == 0 {
        Seq::empty()
    } else {
        let (t, a) = segment_parts(segs.last());
        segments_octets(segs.drop_last()) + segment_octets(t, a)
    }
}

pub open spec fn segments_fit(segs: Seq<AsSegment>) -> bool {
    forall|i: int| 0 <= i < segs.len() ==> #[trigger] segment_parts(segs[i]).1.len() <= 255
}

fn push_segment(out: &mut Vec<u8>, seg_type: u8, ases: &Vec<u16>)
    requires
        ases@.len() <= 255,
    ensures
        final(out)@ == old(out)@ + segment_octets(seg_type, ases@),
{
    let ghost start = out@;
    out.push(seg_type);
    out.push(ases.len() as u8);
    let mut i: usize = 0;
    while i < ases.len()
        invariant
            i <= ases@.len(),
            out@ == start + seq![seg_type, ases@.len() as u8] + as_octets(ases@.subrange(0, i as int)),
        decreases ases@.len() - i,
    {
        let b = be_bytes(ases[i] as u128, 2);
        proof {
            crate::octets::lemma_be_octets_len(ases@[i as int] as nat, 2);
        }
        let ghost before = out@;
        out.push(b[0]);
        out.push(b[1]);
        proof {
            let sub = ases@.subrange(0, i + 1);
            assert(sub.drop_last() =~= ases@.subrange(0, i as int));
            assert(b@ =~= seq![b@[0], b@[1]]);
            assert(out@ =~= before + b@);
        }
        i = i + 1;
    }
    assert(ases@.subrange(0, ases@.len() as int) =~= ases@);
}

/// Some segment has no AS.
pub open spec fn has_empty_segment(segs: Seq<AsSegment>) -> bool {
    exists|i: int| 0 <= i < segs.len() && (#[trigger] segment_parts(segs[i])).1.len() == 0
}

/// AS_PATH value: segments of type 1 or 2, each with at least one AS.
pub open spec fn as_path_valid(s: Seq<u8>) -> bool
    decreases s.len(),
{
    if s.len() == 0 {
        true
    } else if s.len() < 2 || (s[0] != 1 && s[0] != 2) || s[1] == 0 || s.len() < 2 + 2 * s[1] {
        false
    } else {
        as_path_valid(s.skip(2 + 2 * s[1]))
    }
}

proof fn lemma_as_octets_len(ases: Seq<u16>)
    ensures
        as_octets(ases).len() == 2 * ases.len(),
    decreases ases.len(),
{
    if ases.len() > 0 {
        lemma_as_octets_len(ases.drop_last());
        crate::octets::lemma_be_octets_len(ases.last() as nat, 2);
    }
}

proof fn lemma_as_path_concat(a: Seq<u8>, b: Seq<u8>)
    requires
        as_path_valid(a),
        as_path_valid(b),
    ensures
        as_path_valid(a + b),
    decreases a.len(),
{
    if a.len() == 0 {
        assert(a + b =~= b);
    } else {
        let n = 2 + 2 * a[1];
        lemma_as_path_concat(a.skip(n), b);
        assert((a + b).skip(n) =~= a.skip(n) + b);
        assert((a + b)[0] == a[0] && (a + b)[1] == a[1]);
    }
}

proof fn lemma_segments_valid(segs: Seq<AsSegment>)
    requires
        segments_fit(segs),
        !has_empty_segment(segs),
    ensures
        as_path_valid(segments_octets(segs)),
    decreases segs.len(),
{
    if segs.len() == 0 {
        assert(as_path_valid(Seq::<u8>::empty()));
    } else {
        let t = segs.drop_last();
        assert(segments_fit(t)) by {
            assert forall|i: int| 0 <= i < t.len() implies #[trigger] segment_parts(t[i]).1.len() <= 255 by {
                assert(t[i] == segs[i]);
            }
        }
        assert(!has_empty_segment(t)) by {
            if has_empty_segment(t) {
                let i = choose|i: int| 0 <= i < t.len() && (#[trigger] segment_parts(t[i])).1.len() == 0;
                assert(t[i] == segs[i]);
            }
        }
        lemma_segments_valid(t);
        let (ty, ases) = segment_parts(segs.last());
        assert(segment_parts(segs[segs.len() - 1]).1.len() <= 255);
        assert(segment_parts(segs[segs.len() - 1]).1.len() != 0);
        lemma_as_octets_len(ases);
        let o = segment_octets(ty, ases);
        assert(o[1] == ases.len() as u8);
        assert(o.skip(2 + 2 * o[1]) =~= Seq::<u8>::empty());
        assert(as_path_valid(o.skip(2 + 2 * o[1])));
        lemma_as_path_concat(segments_octets(t), o);
    }
}

fn segment_is_empty(seg: &AsSegment) -> (r: bool)
    ensures
        r == (segment_parts(*seg).1.len() == 0),
{
    match seg {
        AsSegment::AsSequence(ases) => ases.len() == 0,
        AsSegment::AsSet(ases) => ases.len() == 0,
    }
}

impl PathAttrBuilder<AsPath> {
    /// Sets the AS_PATH value from its segments; a segment without an AS
    /// makes the path malformed and is refused.
    pub fn as_segments(self, val: Vec<AsSegment>) -> (r: Result<Self, NotifErrorCode>)
        requires
            segments_fit(val@),
        ensures
            r is Err <==> has_empty_segment(val@),
            r matches Err(e) ==> e == NotifErrorCode::UpdateMessageError(UpdateMsgErrSubcode::MalformedAsPath),
            r matches Ok(b) ==> b.value() == segments_octets(val@) && as_path_valid(b.value())
                && b.len_field() == self.len_field(),
    {
        let mut k: usize = 0;
        while k < val.len()
            invariant
                k <= val@.len(),
                forall|i: int| 0 <= i < k ==> (#[trigger] segment_parts(val@[i])).1.len() != 0,
            decreases val@.len() - k,
        {
            if segment_is_empty(&val[k]) {
                return Err(NotifErrorCode::UpdateMessageError(UpdateMsgErrSubcode::MalformedAsPath));
            }
            k = k + 1;
        }
        let mut s = self;
        let mut out: Vec<u8> = Vec::new();
        let mut i: usize = 0;
        while i < val.len()
            invariant
                i <= val@.len(),
                segments_fit(val@),
                out@ == segments_octets(val@.subrange(0, i as int)),
            decreases val@.len() - i,
        {
            assert(segment_parts(val@[i as int]).1.len() <= 255);
            match &val[i] {
                AsSegment::AsSequence(ases) => push_segment(&mut out, AS_SEQUENCE, ases),
                AsSegment::AsSet(ases) => push_segment(&mut out, AS_SET, ases),
            }
            assert(val@.subrange(0, i + 1).drop_last() =~= val@.subrange(0, i as int));
            i = i + 1;
        }
        assert(val@.subrange(0, val@.len() as int) =~= val@);
        proof {
            lemma_segments_valid(val@);
        }
        s.attr_value = out;
        Ok(s)
    }
}

impl PaBuilder for PathAttrBuilder<AsPath> {
    open spec fn can_build(self) -> bool {
        self.value().len() <= 255 && as_path_valid(self.value())
    }

    open spec fn built(self) -> PathAttrModel {
        PathAttrModel {
            flags: TRANSITIVE_BIT,
            type_code: AS_PATH,
            len: PathAttrLen::Std(self.value().len() as u8),
            value: self.value(),
        }
    }

    fn build(self) -> (r: PathAttr) {
        proof {
            lemma_builder_flags_clean();
        }
        let l = self.attr_value.len() as u8;
        PathAttr::make(TRANSITIVE_BIT, AS_PATH, PathAttrLen::Std(l), self.attr_value)
    }
}

// ** NEXT_HOP **
pub struct NextHop;

impl PathAttrBuilder<NextHop> {
    /// Sets the next hop: four octets for IPv4, sixteen for IPv6.
    pub fn next_hop(self, val: IpAddress) -> (r: Self)
        ensures
            r.value() == ip_octets(val),
            r.len_field() == match val {
                IpAddress::V4(_) => PathAttrLen::Std(4),
                IpAddress::V6(_) => PathAttrLen::Std(16),
            },
    {
        let mut s = self;
        proof {
            crate::message_types::lemma_ip_octets_len(val);
        }
        match val {
            IpAddress::V4(_) => {
                s.attr_len = PathAttrLen::Std(4);
            },
            IpAddress::V6(_) => {
                s.attr_len = PathAttrLen::Std(16);
            },
        }
        s.attr_value = val.octets();
        s
    }
}

impl PaBuilder for PathAttrBuilder<NextHop> {
    open spec fn can_build(self) -> bool {
        self.len_field() is Std && len_value(self.len_field()) == self.value().len()
    }

    open spec fn built(self) -> PathAttrModel {
        PathAttrModel { flags: TRANSITIVE_BIT, type_code: NEXT_HOP, len: self.len_field(), value: self.value() }
    }

    fn build(self) -> (r: PathAttr) {
        proof {
            lemma_builder_flags_clean();
        }
        PathAttr::make(TRANSITIVE_BIT, NEXT_HOP, self.attr_len, self.attr_value)
    }
}

// ** MED **
pub struct Med;

impl PathAttrBuilder<Med> {
    /// Sets the MULTI_EXIT_DISC value.
    pub fn metric(self, val: u32) -> (r: Self)
        ensures
            r.value() == be_octets(val as nat, 4),
            r.len_field() == self.len_field(),
    {
        let mut s = self;
        s.attr_value = be_bytes(val as u128, 4);
        s
    }
}

impl PaBuilder for PathAttrBuilder<Med> {
    open spec fn can_build(self) -> bool {
        self.value().len() == 4
    }

    open spec fn built(self) -> PathAttrModel {
        PathAttrModel { flags: OPTIONAL_BIT, type_code: MED, len: PathAttrLen::Std(4), value: self.value() }
    }

    fn build(self) -> (r: PathAttr) {
        proof {
            lemma_builder_flags_clean();
        }
        PathAttr::make(OPTIONAL_BIT, MED, PathAttrLen::Std(4), self.attr_value)
    }
}

// ** LOCAL_PREF **
pub struct LocalPref;

impl PathAttrBuilder<LocalPref> {
    /// Sets the LOCAL_PREF value.
    pub fn local_pref(self, val: u32) -> (r: Self)
        ensures
            r.value() == be_octets(val as nat, 4),
            r.len_field() == self.len_field(),
    {
        let mut s = self;
        s.attr_value = be_bytes(val as u128, 4);
        s
    }
}

impl PaBuilder for PathAttrBuilder<LocalPref> {
    open spec fn can_build(self) -> bool {
        self.value().len() == 4
    }

    open spec fn built(self) -> PathAttrModel {
        PathAttrModel { flags: TRANSITIVE_BIT, type_code: LOCAL_PREF, len: PathAttrLen::Std(4), value: self.value() }
    }

    fn build(self) -> (r: PathAttr) {
        proof {
            lemma_builder_flags_clean();
        }
        PathAttr::make(TRANSITIVE_BIT, LOCAL_PREF, PathAttrLen::Std(4), self.attr_value)
    }
}

// ** ATOMIC_AGGREGATE **
pub struct AtomicAggregate;

impl PaBuilder for PathAttrBuilder<AtomicAggregate> {
    open spec fn can_build(self) -> bool {
        self.value().len() == 0
    }

    open spec fn built(self) -> PathAttrModel {
        PathAttrModel { flags: TRANSITIVE_BIT, type_code: ATOMIC_AGGREGATE, len: PathAttrLen::Std(0), value: self.value() }
    }

    fn build(self) -> (r: PathAttr) {
        proof {
            lemma_builder_flags_clean();
        }
        PathAttr::make(TRANSITIVE_BIT, ATOMIC_AGGREGATE, PathAttrLen::Std(0), self.attr_value)
    }
}

// ** AGGREGATOR **
pub struct Aggregator;

impl PathAttrBuilder<Aggregator> {
    /// Sets the last AS and the IPv4 identifier of the aggregating speaker.
    pub fn aggregator(self, last_as: u16, speaker: u32) -> (r: Self)
        ensures
            r.value() == be_octets(last_as as nat, 2) + be_octets(speaker as nat, 4),
            r.len_field() == self.len_field(),
    {
        let mut s = self;
        let mut a = be_bytes(last_as as u128, 2);
        let mut b = be_bytes(speaker as u128, 4);
        a.append(&mut b);
        s.attr_value = a;
        s
    }
}

impl PaBuilder for PathAttrBuilder<Aggregator> {
    open spec fn can_build(self) -> bool {
        self.value().len() == 6
    }

    open spec fn built(self) -> PathAttrModel {
        PathAttrModel { flags: 0xC0, type_code: AGGREGATOR, len: PathAttrLen::Std(6), value: self.value() }
    }

    fn build(self) -> (r: PathAttr) {
        proof {
            lemma_builder_flags_clean();
        }
        PathAttr::make(0xC0, AGGREGATOR, PathAttrLen::Std(6), self.attr_value)
    }
}

} // verus!
