//! The command line: a key, a data block and an optional decrypt flag.

use vstd::prelude::*;
use vstd::string::StringExecFns;
use crate::error::SdesError;
use crate::text::{binary_value, is_data_text, is_key_text, parse_data, parse_key};

verus! {

/// What a command line asks for.
#[derive(Clone, Copy, Debug, PartialEq, Eq, Structural)]
pub struct Invocation {
    /// The 10-bit master key.
    pub key: u16,
    /// The 8-bit data block. It has to be well formed, and takes no part in
    /// the key schedule.
    pub data: u8,
    /// Whether decryption was asked for. The key schedule is the same
    /// either way.
    pub decrypt: bool,
}

/// The flag that asks for decryption.
pub open spec fn decrypt_flag() -> Seq<char> {
    seq!['-', 'd']
}

/// Reads the arguments of the program, the program's own name first.
///
/// The key and the data are required, in this order. Decryption is asked for
/// by exactly one more argument, the flag `-d`. A malformed key is reported
/// before malformed data.
pub fn parse_args(args: &Vec<String>) -> (res: Result<Invocation, SdesError>)
    ensures
        args@.len() < 3 ==> res == Err::<Invocation, SdesError>(SdesError::UsageError),
        args@.len() >= 3 && !is_key_text(args@[1]@) ==> res == Err::<Invocation, SdesError>(
            SdesError::InvalidKeyFormat,
        ),
        args@.len() >= 3 && is_key_text(args@[1]@) && !is_data_text(args@[2]@) ==> res == Err::<
            Invocation,
            SdesError,
        >(SdesError::InvalidDataFormat),
        args@.len() >= 3 && is_key_text(args@[1]@) && is_data_text(args@[2]@) ==> {
            &&& res matches Ok(asked)
            &&& asked.key == binary_value(args@[1]@)
            &&& asked.key < 1024
            &&& asked.data == binary_value(args@[2]@)
            &&& asked.decrypt == (args@.len() == 4 && args@[3]@ == decrypt_flag())
        },
{
    if args.len() < 3 {
        return Err(SdesError::UsageError);
    }
    let key: u16 = match parse_key(args[1].as_str()) {
        Ok(key) => key,
        Err(e) => {
            return Err(e);
        },
    };
    let data: u8 = match parse_data(args[2].as_str()) {
        Ok(data) => data,
        Err(e) => {
            return Err(e);
        },
    };
    let flag = String::from_str("-d");
    proof {
        reveal_strlit("-d");
        assert(flag@ =~= decrypt_flag());
    }
    let decrypt = args.len() == 4 && args[3] == flag;
    Ok(Invocation { key, data, decrypt })
}

} // verus!
