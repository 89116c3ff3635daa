//! Decoding of one complete message into a typed protocol event, selected by
//! the message's type id. Pure: a function of the type id and payload bytes.

use vstd::prelude::*;

use crate::amf0::{
    Amf0Value, SpecAmf0Value, DecodeError, SpecDecodeError, amf0_view, items_view, error_view,
    SpecValueDecode, SpecListDecode, spec_decode_value, spec_decode_value_list, decode_value,
    decode_value_list, lemma_decode_value_in_range,
};
use crate::bytes::{be2, be4, read_be2, read_be4};
use crate::demux::Message;

verus! {

/// How a peer asks bandwidth to be limited.
#[derive(Debug, Clone, Copy, PartialEq, Eq, Structural)]
pub enum PeerBandwidthLimitType {
    Hard,
    Soft,
    Dynamic,
}

/// The known user-control event kinds.
#[derive(Debug, Clone, Copy, PartialEq, Eq, Structural)]
pub enum UserControlEventType {
    StreamBegin,
    StreamEof,
    StreamDry,
    SetBufferLength,
    StreamIsRecorded,
    PingRequest,
    PingResponse,
}

/// One decoded protocol event.
#[derive(Debug)]
pub enum ProtocolEvent {
    /// Type id 1: the new maximum chunk payload size. Applying it to the
    /// demultiplexer is the caller's responsibility.
    SetChunkSize { size: u32 },
    /// Type id 2.
    Abort { stream_id: u32 },
    /// Type id 3.
    Acknowledgement { sequence_number: u32 },
    /// Type id 4: the event kind selects which optional fields are present.
    UserControl {
        event_type: UserControlEventType,
        stream_id: Option<u32>,
        buffer_length: Option<u32>,
        timestamp: Option<u32>,
    },
    /// Type id 5.
    WindowAcknowledgement { size: u32 },
    /// Type id 6.
    SetPeerBandwidth { size: u32, limit_type: PeerBandwidthLimitType },
    /// Type id 20: a command in object notation. The transaction id keeps the
    /// wire's double as its bit pattern.
    Amf0Command {
        command_name: Vec<u8>,
        transaction_id_bits: u64,
        command_object: Amf0Value,
        additional_arguments: Vec<Amf0Value>,
    },
    /// Type id 18: a data message, a plain list of object-notation values.
    Amf0Data { values: Vec<Amf0Value> },
    /// Type id 8: an audio payload, passed through uninterpreted.
    AudioData { data: Vec<u8> },
    /// Type id 9: a video payload, passed through uninterpreted.
    VideoData { data: Vec<u8> },
    /// Any other type id; never an error.
    Unknown { type_id: u8, data: Vec<u8> },
}

/// The mathematical model of a `ProtocolEvent`.
#[verifier::ext_equal]
pub enum SpecProtocolEvent {
    SetChunkSize { size: u32 },
    Abort { stream_id: u32 },
    Acknowledgement { sequence_number: u32 },
    UserControl {
        event_type: UserControlEventType,
        stream_id: Option<u32>,
        buffer_length: Option<u32>,
        timestamp: Option<u32>,
    },
    WindowAcknowledgement { size: u32 },
    SetPeerBandwidth { size: u32, limit_type: PeerBandwidthLimitType },
    Amf0Command {
        command_name: Seq<u8>,
        transaction_id_bits: u64,
        command_object: SpecAmf0Value,
        additional_arguments: Seq<SpecAmf0Value>,
    },
    Amf0Data { values: Seq<SpecAmf0Value> },
    AudioData { data: Seq<u8> },
    VideoData { data: Seq<u8> },
    Unknown { type_id: u8, data: Seq<u8> },
}

/// Model of one executable event.
pub open spec fn event_view(e: ProtocolEvent) -> SpecProtocolEvent {
    match e {
        ProtocolEvent::SetChunkSize { size } => SpecProtocolEvent::SetChunkSize { size },
        ProtocolEvent::Abort { stream_id } => SpecProtocolEvent::Abort { stream_id },
        ProtocolEvent::Acknowledgement { sequence_number } => {
            SpecProtocolEvent::Acknowledgement { sequence_number }
        },
        ProtocolEvent::UserControl { event_type, stream_id, buffer_length, timestamp } => {
            SpecProtocolEvent::UserControl { event_type, stream_id, buffer_length, timestamp }
        },
        ProtocolEvent::WindowAcknowledgement { size } => {
            SpecProtocolEvent::WindowAcknowledgement { size }
        },
        ProtocolEvent::SetPeerBandwidth { size, limit_type } => {
            SpecProtocolEvent::SetPeerBandwidth { size, limit_type }
        },
        ProtocolEvent::Amf0Command {
            command_name,
            transaction_id_bits,
            command_object,
            additional_arguments,
        } => SpecProtocolEvent::Amf0Command {
            command_name: command_name@,
            transaction_id_bits,
            command_object: amf0_view(command_object),
            additional_arguments: items_view(additional_arguments@),
        },
        ProtocolEvent::Amf0Data { values } => SpecProtocolEvent::Amf0Data {
            values: items_view(values@),
        },
        ProtocolEvent::AudioData { data } => SpecProtocolEvent::AudioData { data: data@ },
        ProtocolEvent::VideoData { data } => SpecProtocolEvent::VideoData { data: data@ },
        ProtocolEvent::Unknown { type_id, data } => SpecProtocolEvent::Unknown {
            type_id,
            data: data@,
        },
    }
}

/// What decoding a user-control payload yields.
pub open spec fn spec_decode_user_control(p: Seq<u8>) -> Result<
    SpecProtocolEvent,
    SpecDecodeError,
> {
    if p.len() < 2 {
        Err(SpecDecodeError::Truncated { offset: 0 })
    } else {
        let et = be2(p, 0);
        if et == 0 || et == 1 || et == 2 || et == 4 {
            if p.len() < 6 {
                Err(SpecDecodeError::Truncated { offset: 2 })
            } else {
                let kind = if et == 0 {
                    UserControlEventType::StreamBegin
                } else if et == 1 {
                    UserControlEventType::StreamEof
                } else if et == 2 {
                    UserControlEventType::StreamDry
                } else {
                    UserControlEventType::StreamIsRecorded
                };
                Ok(
                    SpecProtocolEvent::UserControl {
                        event_type: kind,
                        stream_id: Some(be4(p, 2)),
                        buffer_length: None,
                        timestamp: None,
                    },
                )
            }
        } else if et == 3 {
            if p.len() < 10 {
                Err(SpecDecodeError::Truncated { offset: 2 })
            } else {
                Ok(
                    SpecProtocolEvent::UserControl {
                        event_type: UserControlEventType::SetBufferLength,
                        stream_id: Some(be4(p, 2)),
                        buffer_length: Some(be4(p, 6)),
                        timestamp: None,
                    },
                )
            }
        } else if et == 6 || et == 7 {
            if p.len() < 6 {
                Err(SpecDecodeError::Truncated { offset: 2 })
            } else {
                let kind = if et == 6 {
                    UserControlEventType::PingRequest
                } else {
                    UserControlEventType::PingResponse
                };
                Ok(
                    SpecProtocolEvent::UserControl {
                        event_type: kind,
                        stream_id: None,
                        buffer_length: None,
                        timestamp: Some(be4(p, 2)),
                    },
                )
            }
        } else {
            Err(SpecDecodeError::UnknownUserControlEvent { event_type: et })
        }
    }
}

/// What decoding a command payload yields: a string name, a number
/// transaction id, a command object, then the remaining values.
pub open spec fn spec_decode_command(p: Seq<u8>) -> Result<SpecProtocolEvent, SpecDecodeError> {
    match spec_decode_value(p, 0) {
        SpecValueDecode::Fail { err } => Err(err),
        SpecValueDecode::Value { v: name, end: e1 } => {
            if !(name is Str) {
                Err(SpecDecodeError::CommandNameNotAString { offset: 0 })
            } else {
                match spec_decode_value(p, e1) {
                    SpecValueDecode::Fail { err } => Err(err),
                    SpecValueDecode::Value { v: tid, end: e2 } => {
                        if !(tid is Number) {
                            Err(SpecDecodeError::TransactionIdNotANumber { offset: e1 })
                        } else {
                            match spec_decode_value(p, e2) {
                                SpecValueDecode::Fail { err } => Err(err),
                                SpecValueDecode::Value { v: obj, end: e3 } => {
                                    match spec_decode_value_list(p, e3) {
                                        SpecListDecode::Fail { err } => Err(err),
                                        SpecListDecode::Values { values } => Ok(
                                            SpecProtocolEvent::Amf0Command {
                                                command_name: name->Str_text,
                                                transaction_id_bits: tid->Number_bits,
                                                command_object: obj,
                                                additional_arguments: values,
                                            },
                                        ),
                                    }
                                },
                            }
                        }
                    },
                }
            }
        },
    }
}

/// What decoding a message with the given type id and payload yields.
pub open spec fn spec_decode_message(type_id: u8, p: Seq<u8>) -> Result<
    SpecProtocolEvent,
    SpecDecodeError,
> {
    if type_id == 1 {
        if p.len() < 4 {
            Err(SpecDecodeError::Truncated { offset: 0 })
        } else {
            Ok(SpecProtocolEvent::SetChunkSize { size: be4(p, 0) })
        }
    } else if type_id == 2 {
        if p.len() < 4 {
            Err(SpecDecodeError::Truncated { offset: 0 })
        } else {
            Ok(SpecProtocolEvent::Abort { stream_id: be4(p, 0) })
        }
    } else if type_id == 3 {
        if p.len() < 4 {
            Err(SpecDecodeError::Truncated { offset: 0 })
        } else {
            Ok(SpecProtocolEvent::Acknowledgement { sequence_number: be4(p, 0) })
        }
    } else if type_id == 4 {
        spec_decode_user_control(p)
    } else if type_id == 5 {
        if p.len() < 4 {
            Err(SpecDecodeError::Truncated { offset: 0 })
        } else {
            Ok(SpecProtocolEvent::WindowAcknowledgement { size: be4(p, 0) })
        }
    } else if type_id == 6 {
        if p.len() < 5 {
            Err(SpecDecodeError::Truncated { offset: 0 })
        } else {
            let limit = p[4];
            if limit == 0 {
                Ok(
                    SpecProtocolEvent::SetPeerBandwidth {
                        size: be4(p, 0),
                        limit_type: PeerBandwidthLimitType::Hard,
                    },
                )
            } else if limit == 1 {
                Ok(
                    SpecProtocolEvent::SetPeerBandwidth {
                        size: be4(p, 0),
                        limit_type: PeerBandwidthLimitType::Soft,
                    },
                )
            } else if limit == 2 {
                Ok(
                    SpecProtocolEvent::SetPeerBandwidth {
                        size: be4(p, 0),
                        limit_type: PeerBandwidthLimitType::Dynamic,
                    },
                )
            } else {
                Err(SpecDecodeError::InvalidPeerBandwidthLimit { value: limit })
            }
        }
    } else if type_id == 8 {
        Ok(SpecProtocolEvent::AudioData { data: p })
    } else if type_id == 9 {
        Ok(SpecProtocolEvent::VideoData { data: p })
    } else if type_id == 18 {
        match spec_decode_value_list(p, 0) {
            SpecListDecode::Values { values } => Ok(SpecProtocolEvent::Amf0Data { values }),
            SpecListDecode::Fail { err } => Err(err),
        }
    } else if type_id == 20 {
        spec_decode_command(p)
    } else {
        Ok(SpecProtocolEvent::Unknown { type_id, data: p })
    }
}

/// What an executable decode stands for in the model.
pub open spec fn decode_result_view(r: Result<ProtocolEvent, DecodeError>) -> Result<
    SpecProtocolEvent,
    SpecDecodeError,
> {
    match r {
        Ok(e) => Ok(event_view(e)),
        Err(e) => Err(error_view(e)),
    }
}

/// Decodes one message's payload into a typed protocol event, exactly as
/// `spec_decode_message` says. Recoverable per message: an error leaves the
/// caller free to go on with the next message.
pub fn decode_message(type_id: u8, payload: &[u8]) -> (r: Result<ProtocolEvent, DecodeError>)
    ensures
        decode_result_view(r) == spec_decode_message(type_id, payload@),
{
    let len = payload.len();
    if type_id == 1 {
        if len < 4 {
            Err(DecodeError::Truncated { offset: 0 })
        } else {
            Ok(ProtocolEvent::SetChunkSize { size: read_be4(payload, 0) })
        }
    } else if type_id == 2 {
        if len < 4 {
            Err(DecodeError::Truncated { offset: 0 })
        } else {
            Ok(ProtocolEvent::Abort { stream_id: read_be4(payload, 0) })
        }
    } else if type_id == 3 {
        if len < 4 {
            Err(DecodeError::Truncated { offset: 0 })
        } else {
            Ok(ProtocolEvent::Acknowledgement { sequence_number: read_be4(payload, 0) })
        }
    } else if type_id == 4 {
        decode_user_control(payload)
    } else if type_id == 5 {
        if len < 4 {
            Err(DecodeError::Truncated { offset: 0 })
        } else {
            Ok(ProtocolEvent::WindowAcknowledgement { size: read_be4(payload, 0) })
        }
    } else if type_id == 6 {
        if len < 5 {
            Err(DecodeError::Truncated { offset: 0 })
        } else {
            let size = read_be4(payload, 0);
            let limit = payload[4];
            if limit == 0 {
                Ok(
                    ProtocolEvent::SetPeerBandwidth {
                        size,
                        limit_type: PeerBandwidthLimitType::Hard,
                    },
                )
            } else if limit == 1 {
                Ok(
                    ProtocolEvent::SetPeerBandwidth {
                        size,
                        limit_type: PeerBandwidthLimitType::Soft,
                    },
                )
            } else if limit == 2 {
                Ok(
                    ProtocolEvent::SetPeerBandwidth {
                        size,
                        limit_type: PeerBandwidthLimitType::Dynamic,
                    },
                )
            } else {
                Err(DecodeError::InvalidPeerBandwidthLimit { value: limit })
            }
        }
    } else if type_id == 8 {
        let data = crate::amf0::copy_range(payload, 0, len);
        proof {
            assert(data@ =~= payload@);
        }
        Ok(ProtocolEvent::AudioData { data })
    } else if type_id == 9 {
        let data = crate::amf0::copy_range(payload, 0, len);
        proof {
            assert(data@ =~= payload@);
        }
        Ok(ProtocolEvent::VideoData { data })
    } else if type_id == 18 {
        match decode_value_list(payload, 0) {
            Ok(values) => Ok(ProtocolEvent::Amf0Data { values }),
            Err(e) => Err(e),
        }
    } else if type_id == 20 {
        decode_command(payload)
    } else {
        let data = crate::amf0::copy_range(payload, 0, len);
        proof {
            assert(data@ =~= payload@);
        }
        Ok(ProtocolEvent::Unknown { type_id, data })
    }
}

/// Decodes a user-control payload, as `spec_decode_user_control` says.
fn decode_user_control(p: &[u8]) -> (r: Result<ProtocolEvent, DecodeError>)
    ensures
        decode_result_view(r) == spec_decode_user_control(p@),
{
    let len = p.len();
    if len < 2 {
        return Err(DecodeError::Truncated { offset: 0 });
    }
    let et = read_be2(p, 0);
    if et == 0 || et == 1 || et == 2 || et == 4 {
        if len < 6 {
            Err(DecodeError::Truncated { offset: 2 })
        } else {
            let kind = if et == 0 {
                UserControlEventType::StreamBegin
            } else if et == 1 {
                UserControlEventType::StreamEof
            } else if et == 2 {
                UserControlEventType::StreamDry
            } else {
                UserControlEventType::StreamIsRecorded
            };
            Ok(
                ProtocolEvent::UserControl {
                    event_type: kind,
                    stream_id: Some(read_be4(p, 2)),
                    buffer_length: None,
                    timestamp: None,
                },
            )
        }
    } else if et == 3 {
        if len < 10 {
            Err(DecodeError::Truncated { offset: 2 })
        } else {
            Ok(
                ProtocolEvent::UserControl {
                    event_type: UserControlEventType::SetBufferLength,
                    stream_id: Some(read_be4(p, 2)),
                    buffer_length: Some(read_be4(p, 6)),
                    timestamp: None,
                },
            )
        }
    } else if et == 6 || et == 7 {
        if len < 6 {
            Err(DecodeError::Truncated { offset: 2 })
        } else {
            let kind = if et == 6 {
                UserControlEventType::PingRequest
            } else {
                UserControlEventType::PingResponse
            };
            Ok(
                ProtocolEvent::UserControl {
                    event_type: kind,
                    stream_id: None,
                    buffer_length: None,
                    timestamp: Some(read_be4(p, 2)),
                },
            )
        }
    } else {
        Err(DecodeError::UnknownUserControlEvent { event_type: et })
    }
}

/// Decodes a command payload, as `spec_decode_command` says.
fn decode_command(p: &[u8]) -> (r: Result<ProtocolEvent, DecodeError>)
    ensures
        decode_result_view(r) == spec_decode_command(p@),
{
    match decode_value(p, 0) {
        Err(e) => Err(e),
        Ok((name, e1)) => {
            proof {
                lemma_decode_value_in_range(p@, 0);
            }
            match name {
                Amf0Value::Str { text } => {
                    match decode_value(p, e1) {
                        Err(e) => Err(e),
                        Ok((tid, e2)) => {
                            proof {
                                lemma_decode_value_in_range(p@, e1 as int);
                            }
                            match tid {
                                Amf0Value::Number { bits } => {
                                    match decode_value(p, e2) {
                                        Err(e) => Err(e),
                                        Ok((obj, e3)) => {
                                            proof {
                                                lemma_decode_value_in_range(p@, e2 as int);
                                            }
                                            match decode_value_list(p, e3) {
                                                Err(e) => Err(e),
                                                Ok(values) => Ok(
                                                    ProtocolEvent::Amf0Command {
                                                        command_name: text,
                                                        transaction_id_bits: bits,
                                                        command_object: obj,
                                                        additional_arguments: values,
                                                    },
                                                ),
                                            }
                                        },
                                    }
                                },
                                _ => Err(DecodeError::TransactionIdNotANumber { offset: e1 }),
                            }
                        },
                    }
                },
                _ => Err(DecodeError::CommandNameNotAString { offset: 0 }),
            }
        },
    }
}

/// Decodes one complete message.
pub fn decode(msg: &Message) -> (r: Result<ProtocolEvent, DecodeError>)
    ensures
        decode_result_view(r) == spec_decode_message(msg.type_id, msg.payload@),
{
    decode_message(msg.type_id, msg.payload.as_slice())
}

} // verus!
