use vstd::prelude::*;

verus! {

/// The type of an ICMP message.
#[derive(Copy, Clone, Debug, PartialEq, Eq, Structural)]
pub enum IcmpType {
    EchoReply,
    DestinationUnreachable,
    SourceQuench,
    Redirect,
    EchoRequest,
    TimeExceeded,
    ParameterProblem,
    TimestampRequest,
    TimestampReply,
    InformationRequest,
    InformationReply,
    Unknown,
}

/// The code written for a message type; `Unknown` is written as 17.
pub open spec fn icmp_type_value(t: IcmpType) -> u8 {
    match t {
        IcmpType::EchoReply => 0,
        IcmpType::DestinationUnreachable => 3,
        IcmpType::SourceQuench => 4,
        IcmpType::Redirect => 5,
        IcmpType::EchoRequest => 8,
        IcmpType::TimeExceeded => 11,
        IcmpType::ParameterProblem => 12,
        IcmpType::TimestampRequest => 13,
        IcmpType::TimestampReply => 14,
        IcmpType::InformationRequest => 15,
        IcmpType::InformationReply => 16,
        IcmpType::Unknown => 17,
    }
}

/// The message type that a code stands for.
pub open spec fn icmp_type_of(v: u8) -> IcmpType {
    match v {
        0 => IcmpType::EchoReply,
        3 => IcmpType::DestinationUnreachable,
        4 => IcmpType::SourceQuench,
        5 => IcmpType::Redirect,
        8 => IcmpType::EchoRequest,
        11 => IcmpType::TimeExceeded,
        12 => IcmpType::ParameterProblem,
        13 => IcmpType::TimestampRequest,
        14 => IcmpType::TimestampReply,
        15 => IcmpType::InformationRequest,
        16 => IcmpType::InformationReply,
        _ => IcmpType::Unknown,
    }
}

impl IcmpType {
    /// The code written for this message type.
    pub fn to_u8(&self) -> (r: u8)
        ensures
            r == icmp_type_value(*self),
    {
        match self {
            Self::EchoReply => 0,
            Self::DestinationUnreachable => 3,
            Self::SourceQuench => 4,
            Self::Redirect => 5,
            Self::EchoRequest => 8,
            Self::TimeExceeded => 11,
            Self::ParameterProblem => 12,
            Self::TimestampRequest => 13,
            Self::TimestampReply => 14,
            Self::InformationRequest => 15,
            Self::InformationReply => 16,
            Self::Unknown => 17,
        }
    }

    /// The message type that `icmp_type` stands for.
    pub fn from_u8(icmp_type: u8) -> (r: Self)
        ensures
            r == icmp_type_of(icmp_type),
    {
        match icmp_type {
            0 => Self::EchoReply,
            3 => Self::DestinationUnreachable,
            4 => Self::SourceQuench,
            5 => Self::Redirect,
            8 => Self::EchoRequest,
            11 => Self::TimeExceeded,
            12 => Self::ParameterProblem,
            13 => Self::TimestampRequest,
            14 => Self::TimestampReply,
            15 => Self::InformationRequest,
            16 => Self::InformationReply,
            _ => Self::Unknown,
        }
    }
}

/// The four bytes after the checksum, in the layout of the message type. An
/// address is held as its 32-bit value.
#[derive(Copy, Clone, Debug, PartialEq, Eq, Structural)]
pub enum IcmpContentType {
    Echo { id: u16, sequence_no: u16 },
    DestinationUnreachable { unused: u32 },
    TimeExceeded { unused: u32 },
    ParameterProblem { pointer: u8, unused: u32 },
    SourceQuench { unused: u32 },
    Redirect { gateway_address: u32 },
    Timestamp { id: u16, sequence_no: u16 },
    Information { id: u16, sequence_no: u16 },
}

/// The content that the 32-bit word `content` holds for a message of type
/// `t`.
pub open spec fn content_of(t: IcmpType, content: u32) -> IcmpContentType {
    match t {
        IcmpType::EchoRequest | IcmpType::EchoReply => IcmpContentType::Echo {
            id: (content / 0x1_0000) as u16,
            sequence_no: (content % 0x1_0000) as u16,
        },
        IcmpType::DestinationUnreachable => IcmpContentType::DestinationUnreachable {
            unused: content,
        },
        IcmpType::TimeExceeded => IcmpContentType::TimeExceeded { unused: content },
        IcmpType::ParameterProblem => IcmpContentType::ParameterProblem {
            pointer: (content / 0x100_0000) as u8,
            unused: content % 0x100_0000,
        },
        IcmpType::SourceQuench => IcmpContentType::SourceQuench { unused: content },
        IcmpType::Redirect => IcmpContentType::Redirect { gateway_address: content },
        IcmpType::TimestampRequest | IcmpType::TimestampReply => IcmpContentType::Timestamp {
            id: (content / 0x1_0000) as u16,
            sequence_no: (content % 0x1_0000) as u16,
        },
        _ => IcmpContentType::Information {
            id: (content / 0x1_0000) as u16,
            sequence_no: (content % 0x1_0000) as u16,
        },
    }
}

/// The 32-bit word of a content.
pub open spec fn content_value(c: IcmpContentType) -> u32 {
    match c {
        IcmpContentType::Echo { id, sequence_no } => (id as int * 0x1_0000 + sequence_no) as u32,
        IcmpContentType::Timestamp { id, sequence_no } => (id as int * 0x1_0000
            + sequence_no) as u32,
        IcmpContentType::Information { id, sequence_no } => (id as int * 0x1_0000
            + sequence_no) as u32,
        IcmpContentType::DestinationUnreachable { unused } => unused,
        IcmpContentType::TimeExceeded { unused } => unused,
        IcmpContentType::SourceQuench { unused } => unused,
        IcmpContentType::Redirect { gateway_address } => gateway_address,
        IcmpContentType::ParameterProblem { pointer, unused } => (pointer as int * 0x100_0000
            + unused % 0x100_0000) as u32,
    }
}

impl IcmpContentType {
    /// The content that `content` holds for a message of type `msg_type`.
    pub fn new(msg_type: IcmpType, content: u32) -> (r: Self)
        requires
            msg_type != IcmpType::Unknown,
        ensures
            r == content_of(msg_type, content),
    {
        match msg_type {
            IcmpType::EchoRequest | IcmpType::EchoReply => Self::Echo {
                id: (content / 0x1_0000) as u16,
                sequence_no: (content % 0x1_0000) as u16,
            },
            IcmpType::DestinationUnreachable => Self::DestinationUnreachable { unused: content },
            IcmpType::TimeExceeded => Self::TimeExceeded { unused: content },
            IcmpType::ParameterProblem => Self::ParameterProblem {
                pointer: (content / 0x100_0000) as u8,
                unused: content % 0x100_0000,
            },
            IcmpType::SourceQuench => Self::SourceQuench { unused: content },
            IcmpType::Redirect => Self::Redirect { gateway_address: content },
            IcmpType::TimestampRequest | IcmpType::TimestampReply => Self::Timestamp {
                id: (content / 0x1_0000) as u16,
                sequence_no: (content % 0x1_0000) as u16,
            },
            _ => Self::Information {
                id: (content / 0x1_0000) as u16,
                sequence_no: (content % 0x1_0000) as u16,
            },
        }
    }

    /// The 32-bit word of this content.
    pub fn to_u32(&self) -> (r: u32)
        ensures
            r == content_value(*self),
    {
        match *self {
            Self::Echo { id, sequence_no }
            | Self::Timestamp { id, sequence_no }
            | Self::Information { id, sequence_no } => id as u32 * 0x1_0000 + sequence_no as u32,
            Self::DestinationUnreachable { unused }
            | Self::TimeExceeded { unused }
            | Self::SourceQuench { unused } => unused,
            Self::Redirect { gateway_address } => gateway_address,
            Self::ParameterProblem { pointer, unused } => pointer as u32 * 0x100_0000 + unused
                % 0x100_0000,
        }
    }
}

} // verus!
