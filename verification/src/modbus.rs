use vstd::prelude::*;

verus! {

/// Why a Modbus read failed.
#[derive(Debug)]
pub enum ModbusError {
    /// No connection has been established; no request was sent.
    NotConnected,
    /// The transport failed; holds the transport's message.
    Transport(String),
    /// The device answered with a Modbus exception (an empty response); holds its code.
    Exception(u8),
}

impl ModbusError {
    /// The error text of a failed read: `not connected`, the transport's own
    /// message, or `empty response` for a Modbus exception.
    pub fn message(&self) -> (res: String)
        ensures
            match self {
                ModbusError::NotConnected => res@ == "not connected"@,
                ModbusError::Transport(msg) => res@ == msg@,
                ModbusError::Exception(_) => res@ == "empty response"@,
            },
    {
        match self {
            ModbusError::NotConnected => "not connected".to_string(),
            ModbusError::Transport(msg) => msg.clone(),
            ModbusError::Exception(_) => "empty response".to_string(),
        }
    }
}

/// What an attempt to read registers or bits produced.
pub enum ReadReply<T> {
    /// The client holds no connection, so nothing was sent.
    NotConnected,
    /// The request or its reply was lost; holds the transport's message.
    TransportFailed(String),
    /// The device answered with the given Modbus exception code.
    Exception(u8),
    /// The device answered with data.
    Data(Vec<T>),
}

/// The result of a read (`read_holding_registers`, `read_input_registers`,
/// `read_coils`, `read_discrete_inputs`) from what the attempt produced:
/// the data, or the reason it is missing.
pub fn read_result<T>(reply: ReadReply<T>) -> (res: Result<Vec<T>, ModbusError>)
    ensures
        match reply {
            ReadReply::NotConnected => res == Err::<Vec<T>, ModbusError>(ModbusError::NotConnected),
            ReadReply::TransportFailed(msg) => res == Err::<Vec<T>, ModbusError>(ModbusError::Transport(msg)),
            ReadReply::Exception(code) => res == Err::<Vec<T>, ModbusError>(ModbusError::Exception(code)),
            ReadReply::Data(data) => res == Ok::<Vec<T>, ModbusError>(data),
        },
{
    match reply {
        ReadReply::NotConnected => Err(ModbusError::NotConnected),
        ReadReply::TransportFailed(msg) => Err(ModbusError::Transport(msg)),
        ReadReply::Exception(code) => Err(ModbusError::Exception(code)),
        ReadReply::Data(data) => Ok(data),
    }
}

} // verus!
