//! The built-in filter functions a WHERE clause can name.

use vstd::prelude::*;
use vstd::string::StringExecFns;

use crate::data::opt_val_eq;
use crate::data::Value;
use crate::error::DbError;
use crate::error::ErrorCode;

verus! {

/// Which built-in comparison a parsed filter applies; the ordering
/// comparisons are reserved and not yet executable.
#[derive(Debug, Copy, Clone, PartialEq, Eq, Structural)]
pub enum FilterKind {
    Eq,
    Neq,
}

/// Whether two nullable arguments are equal: two nulls are equal, a null
/// never equals a value, and values compare by type and payload.
pub fn eq(args: Vec<Option<Value>>) -> (r: Result<bool, DbError>)
    ensures
        r is Ok <==> args@.len() == 2,
        (r matches Ok(b) ==> b == opt_val_eq(args@[0], args@[1])),
        (r matches Err(e) ==> e.code == ErrorCode::Invalid),
{
    if args.len() != 2 {
        return Err(
            DbError::new(
                ErrorCode::Invalid,
                String::from_str("equals function requires exactly 2 arguments"),
            ),
        );
    }
    let r = match (&args[0], &args[1]) {
        (Some(a), Some(b)) => a.eq(b),
        (None, Some(_)) => false,
        (Some(_), None) => false,
        (None, None) => true,
    };
    Ok(r)
}

/// The negation of `eq` on the same arguments.
pub fn neq(args: Vec<Option<Value>>) -> (r: Result<bool, DbError>)
    ensures
        r is Ok <==> args@.len() == 2,
        (r matches Ok(b) ==> b == !opt_val_eq(args@[0], args@[1])),
        (r matches Err(e) ==> e.code == ErrorCode::Invalid),
{
    match eq(args) {
        Ok(b) => Ok(!b),
        Err(e) => Err(e),
    }
}

} // verus!
