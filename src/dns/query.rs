use vstd::prelude::*;

verus! {

/// The kind of record that a question asks for, or that a record holds.
#[derive(Copy, Clone, PartialEq, Eq, Debug, Structural)]
pub enum DnsQueryType {
    /// An IPv4 address.
    A,
    /// A name server.
    NS,
    /// An alias of another name.
    CNAME,
    /// The start of a zone of authority.
    SOA,
    /// A name that an address points back to.
    PTR,
    /// A mail exchange.
    MX,
    /// Free text.
    TXT,
    /// An IPv6 address.
    AAAA,
    /// The location of a service.
    SRV,
    /// Any other kind, by its numeric code.
    UNKNOWN(u16),
}

/// The query type that a numeric code stands for.
pub open spec fn query_type_of(value: u16) -> DnsQueryType {
    match value {
        1 => DnsQueryType::A,
        2 => DnsQueryType::NS,
        5 => DnsQueryType::CNAME,
        6 => DnsQueryType::SOA,
        12 => DnsQueryType::PTR,
        15 => DnsQueryType::MX,
        16 => DnsQueryType::TXT,
        28 => DnsQueryType::AAAA,
        33 => DnsQueryType::SRV,
        _ => DnsQueryType::UNKNOWN(value),
    }
}

/// The numeric code of a query type.
pub open spec fn query_type_value(t: DnsQueryType) -> u16 {
    match t {
        DnsQueryType::A => 1,
        DnsQueryType::NS => 2,
        DnsQueryType::CNAME => 5,
        DnsQueryType::SOA => 6,
        DnsQueryType::PTR => 12,
        DnsQueryType::MX => 15,
        DnsQueryType::TXT => 16,
        DnsQueryType::AAAA => 28,
        DnsQueryType::SRV => 33,
        DnsQueryType::UNKNOWN(v) => v,
    }
}

/// Whether `t` is read back as itself from its code: every known kind is,
/// and `UNKNOWN` is when its code is none of theirs.
pub open spec fn canonical_query_type(t: DnsQueryType) -> bool {
    query_type_of(query_type_value(t)) == t
}

impl DnsQueryType {
    /// The query type that `value` stands for.
    pub fn from_u16(value: u16) -> (r: Self)
        ensures
            r == query_type_of(value),
    {
        match value {
            1 => Self::A,
            2 => Self::NS,
            5 => Self::CNAME,
            6 => Self::SOA,
            12 => Self::PTR,
            15 => Self::MX,
            16 => Self::TXT,
            28 => Self::AAAA,
            33 => Self::SRV,
            other => Self::UNKNOWN(other),
        }
    }

    /// The numeric code of this query type.
    pub fn to_u16(&self) -> (r: u16)
        ensures
            r == query_type_value(*self),
    {
        match *self {
            Self::A => 1,
            Self::NS => 2,
            Self::CNAME => 5,
            Self::SOA => 6,
            Self::PTR => 12,
            Self::MX => 15,
            Self::TXT => 16,
            Self::AAAA => 28,
            Self::SRV => 33,
            Self::UNKNOWN(value) => value,
        }
    }
}

/// The class of a question.
#[derive(Copy, Clone, PartialEq, Eq, Debug, Structural)]
pub enum DnsQueryClass {
    /// The Internet.
    IN,
    /// Chaos.
    CH,
    /// Hesiod.
    HS,
    /// No class, as some updates use it.
    NONE,
    /// Any class.
    ANY,
    /// Code zero, reserved.
    RESERVED,
    /// The codes 0xFF00 to 0xFFFF, reserved for private use.
    ReservedPrivate,
    /// Any other code; written as 2, an unassigned code.
    UNASSIGNED,
}

/// The class that a numeric code stands for.
pub open spec fn query_class_of(value: u16) -> DnsQueryClass {
    if value == 1 {
        DnsQueryClass::IN
    } else if value == 3 {
        DnsQueryClass::CH
    } else if value == 4 {
        DnsQueryClass::HS
    } else if value == 254 {
        DnsQueryClass::NONE
    } else if value == 255 {
        DnsQueryClass::ANY
    } else if value == 0 {
        DnsQueryClass::RESERVED
    } else if value >= 0xFF00 {
        DnsQueryClass::ReservedPrivate
    } else {
        DnsQueryClass::UNASSIGNED
    }
}

/// The numeric code written for a class.
pub open spec fn query_class_value(c: DnsQueryClass) -> u16 {
    match c {
        DnsQueryClass::IN => 1,
        DnsQueryClass::CH => 3,
        DnsQueryClass::HS => 4,
        DnsQueryClass::NONE => 254,
        DnsQueryClass::ANY => 255,
        DnsQueryClass::RESERVED => 0,
        DnsQueryClass::ReservedPrivate => 0xFF00,
        DnsQueryClass::UNASSIGNED => 2,
    }
}

impl DnsQueryClass {
    /// The class that `value` stands for.
    pub fn from_u16(value: u16) -> (r: Self)
        ensures
            r == query_class_of(value),
    {
        match value {
            1 => Self::IN,
            3 => Self::CH,
            4 => Self::HS,
            254 => Self::NONE,
            255 => Self::ANY,
            0 => Self::RESERVED,
            0xFF00..=0xFFFF => Self::ReservedPrivate,
            _ => Self::UNASSIGNED,
        }
    }

    /// The numeric code written for this class.
    pub fn to_u16(&self) -> (r: u16)
        ensures
            r == query_class_value(*self),
            query_class_of(r) == *self,
    {
        match *self {
            Self::IN => 1,
            Self::CH => 3,
            Self::HS => 4,
            Self::NONE => 254,
            Self::ANY => 255,
            Self::RESERVED => 0,
            Self::ReservedPrivate => 0xFF00,
            Self::UNASSIGNED => 2,
        }
    }
}

} // verus!
