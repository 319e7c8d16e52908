//! Validation policy: name non-emptiness, content-type allow-list with a
//! wildcard bypass, and the declared-size ceiling, checked in that order
//! before any collaborator is called.

use vstd::prelude::*;
use crate::config::{Config, contains_str, lower_seq, ascii_lowercase, list_contains};
use crate::decimal::dec_digits;
use crate::models::{AppError, TransferRequest};
use crate::text::string_of_chars;

verus! {

/// The request's content type, case-folded, is allowed: either listed, or a
/// wildcard entry is configured.
pub open spec fn format_allowed(config: Config, content_type: Seq<char>) -> bool {
    contains_str(config.allowed_formats@, lower_seq(content_type)) || contains_str(
        config.allowed_formats@,
        "*"@,
    )
}

/// A request that the validation policy admits.
pub open spec fn spec_valid_request(config: Config, req: TransferRequest) -> bool {
    &&& req.name@.len() > 0
    &&& format_allowed(config, req.content_type@)
    &&& req.size <= config.max_size
}

/// The comma-and-space join of the allow-list, for the rejection message.
pub open spec fn spec_join_comma(list: Seq<String>) -> Seq<char>
    decreases list.len(),
{
    if list.len() == 0 {
        Seq::empty()
    } else if list.len() == 1 {
        list[0]@
    } else {
        list[0]@ + ", "@ + spec_join_comma(list.skip(1))
    }
}

fn join_comma_from(list: &Vec<String>, i: usize) -> (r: Vec<char>)
    requires
        i <= list@.len(),
    ensures
        r@ == spec_join_comma(list@.skip(i as int)),
    decreases list@.len() - i,
{
    if i == list.len() {
        let r: Vec<char> = Vec::new();
        proof {
            assert(list@.skip(i as int).len() == 0);
        }
        r
    } else if i + 1 == list.len() {
        let r = crate::text::chars_of(list[i].as_str());
        proof {
            assert(list@.skip(i as int).len() == 1);
            assert(list@.skip(i as int)[0] == list@[i as int]);
        }
        r
    } else {
        let mut r = crate::text::chars_of(list[i].as_str());
        let mut sep = crate::text::chars_of(", ");
        r.append(&mut sep);
        let mut rest = join_comma_from(list, i + 1);
        r.append(&mut rest);
        proof {
            let tail = list@.skip(i as int);
            assert(tail[0] == list@[i as int]);
            assert(tail.skip(1) =~= list@.skip(i + 1 as int));
            assert(r@ =~= spec_join_comma(tail));
        }
        r
    }
}

/// Joins the allow-list entries with a comma and a space.
pub fn join_comma(list: &Vec<String>) -> (r: String)
    ensures
        r@ == spec_join_comma(list@),
{
    let v = join_comma_from(list, 0);
    proof {
        assert(list@.skip(0) =~= list@);
    }
    string_of_chars(&v)
}

/// Checks a transfer request against the policy. Exactly the requests that
/// `spec_valid_request` admits pass; an empty name or a disallowed type is a
/// `BadRequest`, in that order, and a size over the ceiling is a
/// `LargePayload`, each with its message.
pub fn validate_request(config: &Config, req: &TransferRequest) -> (r: Result<(), AppError>)
    ensures
        match r {
            Ok(_) => spec_valid_request(*config, *req),
            Err(e) => match e {
                AppError::BadRequest(m) => (req.name@.len() == 0 && m@
                    == "Name cannot be empty"@) || (req.name@.len() > 0 && !format_allowed(
                    *config,
                    req.content_type@,
                ) && m@ == "Unsupported file format. Allowed: "@ + spec_join_comma(
                    config.allowed_formats@,
                )),
                AppError::LargePayload(m) => req.name@.len() > 0 && format_allowed(
                    *config,
                    req.content_type@,
                ) && req.size > config.max_size && m@ == "Max "@ + dec_digits(
                    config.max_size_mb as nat,
                ) + "MB"@,
                _ => false,
            },
        },
{
    if req.name.as_str().is_empty() {
        return Err(AppError::BadRequest(String::from_str("Name cannot be empty")));
    }
    let lowered = ascii_lowercase(req.content_type.as_str());
    let wildcard = String::from_str("*");
    if !list_contains(&config.allowed_formats, &lowered) && !list_contains(
        &config.allowed_formats,
        &wildcard,
    ) {
        let msg = String::from_str("Unsupported file format. Allowed: ").concat(
            join_comma(&config.allowed_formats).as_str(),
        );
        return Err(AppError::BadRequest(msg));
    }
    if req.size > config.max_size {
        let msg = String::from_str("Max ").concat(
            string_of_chars(&crate::decimal::u64_to_dec_chars(config.max_size_mb)).as_str(),
        ).concat("MB");
        return Err(AppError::LargePayload(msg));
    }
    Ok(())
}

} // verus!
