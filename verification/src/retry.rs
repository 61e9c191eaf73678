//! What is known of an operation while it is retried.
use vstd::prelude::*;
use vstd::string::*;
use crate::text::{decimal, owned, push_decimal};

verus! {

#[derive(Debug, PartialEq, Eq)]
pub struct RetryRequest {
    pub operation: String,
    pub is_idempotent: bool,
    pub retry_attempts: u32,
}

impl Clone for RetryRequest {
    fn clone(&self) -> (r: RetryRequest)
        ensures
            r == *self,
    {
        RetryRequest {
            operation: self.operation.clone(),
            is_idempotent: self.is_idempotent,
            retry_attempts: self.retry_attempts,
        }
    }
}

impl RetryRequest {
    /// An operation that has not been retried yet.
    pub fn new(operation: &str, is_idempotent: bool) -> (r: RetryRequest)
        ensures
            r.operation@ == operation@,
            r.is_idempotent == is_idempotent,
            r.retry_attempts == 0,
    {
        RetryRequest { operation: owned(operation), is_idempotent, retry_attempts: 0 }
    }

    pub open spec fn text(&self) -> Seq<char> {
        "operation: "@ + self.operation@ + (if self.is_idempotent {
            ", is_idempotent: true, retry_attempts: "@
        } else {
            ", is_idempotent: false, retry_attempts: "@
        }) + decimal(self.retry_attempts as nat)
    }

    /// How the request reads.
    pub fn message(&self) -> (r: String)
        ensures
            r@ == self.text(),
    {
        let mut r: String = owned("operation: ");
        r.append(self.operation.as_str());
        if self.is_idempotent {
            r.append(", is_idempotent: true, retry_attempts: ");
        } else {
            r.append(", is_idempotent: false, retry_attempts: ");
        }
        push_decimal(&mut r, self.retry_attempts as u64);
        r
    }
}

} // verus!
