//! Receipts that make an operation repeatable: the bounded operation identity, the identities
//! derived from it, and the checks on a stored receipt.

use crate::digest::{sha256, sha256_bytes, tagged, tagged_digest};
use crate::text::{chars_of, concat2, concat3, decimal, decimal_text, hex, hex_text, push_char, text_equals};
use vstd::prelude::*;
use vstd::utf8::encode_utf8;

verus! {

pub const OPERATION_RECEIPT_SCHEMA_VERSION: u32 = 1;

pub const MAX_OPERATION_ID_BYTES: usize = 128;

/// A stored receipt: which request was answered, and with what.
#[derive(Debug)]
pub struct OperationReceipt {
    pub schema_version: u32,
    pub method: String,
    pub operation_id: String,
    pub request_digest: String,
    /// The JSON text of the stored result.
    pub result: String,
}

/// Whether `c` is an ASCII letter or digit.
pub open spec fn ascii_alphanumeric(c: char) -> bool {
    ('0' <= c && c <= '9') || ('a' <= c && c <= 'z') || ('A' <= c && c <= 'Z')
}

/// Whether `c` may stand in an operation identity.
pub open spec fn operation_id_char(c: char) -> bool {
    ascii_alphanumeric(c) || c == '-' || c == '_' || c == '.' || c == ':'
}

/// Whether `id` is an operation identity: 1 to 128 characters of the allowed set.
pub open spec fn valid_operation_id(id: Seq<char>) -> bool {
    1 <= id.len() <= MAX_OPERATION_ID_BYTES && forall|i: int|
        0 <= i < id.len() ==> operation_id_char(#[trigger] id[i])
}

pub fn is_ascii_alphanumeric(c: char) -> (result: bool)
    ensures
        result == ascii_alphanumeric(c),
{
    ('0' <= c && c <= '9') || ('a' <= c && c <= 'z') || ('A' <= c && c <= 'Z')
}

/// Accepts an operation identity, or says what one is made of.
pub fn validate_operation_id(value: &str) -> (result: Result<(), String>)
    ensures
        match result {
            Ok(()) => valid_operation_id(value@),
            Err(message) => !valid_operation_id(value@) && message@
                == "operationId must be 1-128 ASCII letters, digits, hyphens, underscores, dots, or colons"@,
        },
{
    let chars = chars_of(value);
    let mut valid = 1 <= chars.len() && chars.len() <= MAX_OPERATION_ID_BYTES;
    let mut i: usize = 0;
    while valid && i < chars.len()
        invariant
            i <= chars.len(),
            chars@ == value@,
            valid ==> 1 <= chars.len() <= MAX_OPERATION_ID_BYTES && forall|j: int|
                0 <= j < i ==> operation_id_char(#[trigger] value@[j]),
            !valid ==> !valid_operation_id(value@),
        decreases chars.len() - i,
    {
        let c: char = chars[i];
        if !(is_ascii_alphanumeric(c) || c == '-' || c == '_' || c == '.' || c == ':') {
            assert(!operation_id_char(value@[i as int]));
            valid = false;
        }
        i = i + 1;
    }
    if valid {
        Ok(())
    } else {
        Err(
            "operationId must be 1-128 ASCII letters, digits, hyphens, underscores, dots, or colons".to_owned(),
        )
    }
}

/// The digest of an encoded request.
pub fn request_digest(encoded: &[u8]) -> (result: String)
    ensures
        result@ == tagged(encoded@),
{
    tagged_digest(encoded)
}

/// The first `length` bytes of `bytes` in hexadecimal.
pub open spec fn hex_of_prefix(bytes: Seq<u8>, length: nat) -> Seq<char> {
    if length <= bytes.len() {
        hex(bytes.subrange(0, length as int))
    } else {
        hex(bytes)
    }
}

/// The first `length` bytes of `bytes` in hexadecimal.
pub fn hex_prefix(bytes: &[u8], length: usize) -> (result: String)
    ensures
        result@ == hex_of_prefix(bytes@, length as nat),
{
    if length <= bytes.len() {
        hex_text(&bytes[0..length])
    } else {
        hex_text(bytes)
    }
}

/// The text that an identity is derived from.
pub open spec fn identity_source(method: Seq<char>, operation_id: Seq<char>) -> Seq<char> {
    method + "\0"@ + operation_id
}

/// The identity that `prefix` and one operation of one method determine.
pub open spec fn identity(prefix: Seq<char>, method: Seq<char>, operation_id: Seq<char>) -> Seq<
    char,
> {
    prefix + hex_of_prefix(
        sha256(encode_utf8("centaeris:"@ + identity_source(method, operation_id))),
        16,
    )
}

/// The identity that `prefix` and one operation of one method determine.
pub fn deterministic_identity(prefix: &str, method: &str, operation_id: &str) -> (result: String)
    ensures
        result@ == identity(prefix@, method@, operation_id@),
{
    let source = concat2("centaeris:", concat3(method, "\0", operation_id).as_str());
    let digest = sha256_bytes(source.as_str().as_bytes());
    concat2(prefix, hex_prefix(digest.as_slice(), 16).as_str())
}

/// `method` with every slash turned into a hyphen.
pub open spec fn receipt_directory(method: Seq<char>) -> Seq<char> {
    method.map_values(
        |c: char|
            if c == '/' {
                '-'
            } else {
                c
            },
    )
}

/// The directory and the file name under which the receipt of an operation is stored.
pub open spec fn receipt_location(method: Seq<char>, operation_id: Seq<char>) -> (
    Seq<char>,
    Seq<char>,
) {
    (
        receipt_directory(method),
        hex_of_prefix(sha256(encode_utf8(identity_source(method, operation_id))), 32) + ".json"@,
    )
}

/// The directory and the file name under which the receipt of an operation is stored.
pub fn receipt_path(method: &str, operation_id: &str) -> (result: (String, String))
    ensures
        (result.0@, result.1@) == receipt_location(method@, operation_id@),
{
    let source = concat3(method, "\0", operation_id);
    let digest = sha256_bytes(source.as_str().as_bytes());
    let file = concat2(hex_prefix(digest.as_slice(), 32).as_str(), ".json");
    let chars = chars_of(method);
    let mut directory = String::new();
    let mut i: usize = 0;
    while i < chars.len()
        invariant
            i <= chars.len(),
            chars@ == method@,
            directory@ == receipt_directory(method@.subrange(0, i as int)),
        decreases chars.len() - i,
    {
        let c: char = chars[i];
        push_char(
            &mut directory,
            if c == '/' {
                '-'
            } else {
                c
            },
        );
        assert(directory@ =~= receipt_directory(method@.subrange(0, i + 1)));
        i = i + 1;
    }
    assert(method@.subrange(0, chars@.len() as int) =~= method@);
    (directory, file)
}

/// The error that a stored receipt gives when it is read back for an operation, if any.
pub open spec fn receipt_error(
    schema_version: u32,
    stored_method: Seq<char>,
    stored_id: Seq<char>,
    method: Seq<char>,
    operation_id: Seq<char>,
) -> Option<Seq<char>> {
    if schema_version != OPERATION_RECEIPT_SCHEMA_VERSION {
        Some("unsupported operation receipt schemaVersion: "@ + decimal(schema_version as nat))
    } else if stored_method != method || stored_id != operation_id {
        Some("operation receipt identity mismatch"@)
    } else {
        None
    }
}

impl OperationReceipt {
    /// Accepts a receipt that was stored for this operation.
    pub fn validate(&self, method: &str, operation_id: &str) -> (result: Result<(), String>)
        ensures
            match result {
                Ok(()) => receipt_error(
                    self.schema_version,
                    self.method@,
                    self.operation_id@,
                    method@,
                    operation_id@,
                ) == None::<Seq<char>>,
                Err(message) => receipt_error(
                    self.schema_version,
                    self.method@,
                    self.operation_id@,
                    method@,
                    operation_id@,
                ) == Some(message@),
            },
    {
        if self.schema_version != OPERATION_RECEIPT_SCHEMA_VERSION {
            return Err(
                concat2(
                    "unsupported operation receipt schemaVersion: ",
                    decimal_text(self.schema_version as u64).as_str(),
                ),
            );
        }
        if !text_equals(self.method.as_str(), method) || !text_equals(
            self.operation_id.as_str(),
            operation_id,
        ) {
            return Err("operation receipt identity mismatch".to_owned());
        }
        Ok(())
    }

    /// The receipt of an operation that has been answered.
    pub fn for_operation(
        method: &str,
        operation_id: &str,
        request_digest: String,
        result: String,
    ) -> (receipt: OperationReceipt)
        ensures
            receipt.schema_version == OPERATION_RECEIPT_SCHEMA_VERSION,
            receipt.method@ == method@,
            receipt.operation_id@ == operation_id@,
            receipt.request_digest == request_digest,
            receipt.result == result,
            receipt_error(
                receipt.schema_version,
                receipt.method@,
                receipt.operation_id@,
                method@,
                operation_id@,
            ) == None::<Seq<char>>,
    {
        OperationReceipt {
            schema_version: OPERATION_RECEIPT_SCHEMA_VERSION,
            method: method.to_owned(),
            operation_id: operation_id.to_owned(),
            request_digest,
            result,
        }
    }
}

/// An operation is named by 1 to 128 letters and digits of ASCII, hyphens, underscores, full stops
/// and colons, and by nothing else.
pub proof fn law_operations_are_named_plainly(id: Seq<char>)
    ensures
        valid_operation_id(id) <==> 0 < id.len() <= 128 && forall|i: int|
            0 <= i < id.len() ==> {
                let c = #[trigger] id[i];
                ||| '0' <= c && c <= '9'
                ||| 'a' <= c && c <= 'z'
                ||| 'A' <= c && c <= 'Z'
                ||| c == '-' || c == '_' || c == '.' || c == ':'
            },
{
    if valid_operation_id(id) {
        assert forall|i: int| 0 <= i < id.len() implies ({
            let c = #[trigger] id[i];
            ||| '0' <= c && c <= '9'
            ||| 'a' <= c && c <= 'z'
            ||| 'A' <= c && c <= 'Z'
            ||| c == '-' || c == '_' || c == '.' || c == ':'
        }) by {
            assert(operation_id_char(id[i]));
        }
    }
}

/// Two operations have the same source of their identity only where they are the same operation of
/// the same method: a method holds no NUL.
pub proof fn law_operations_are_told_apart(
    method: Seq<char>,
    id: Seq<char>,
    other_method: Seq<char>,
    other_id: Seq<char>,
)
    requires
        forall|i: int| 0 <= i < method.len() ==> (#[trigger] method[i]) != '\0',
        forall|i: int| 0 <= i < other_method.len() ==> (#[trigger] other_method[i]) != '\0',
    ensures
        identity_source(method, id) == identity_source(other_method, other_id) ==> method
            == other_method && id == other_id,
{
    reveal_strlit("\0");
    let a = identity_source(method, id);
    let b = identity_source(other_method, other_id);
    if a == b {
        assert(a[method.len() as int] == '\0');
        assert(b[other_method.len() as int] == '\0');
        if method.len() < other_method.len() {
            assert(b[method.len() as int] == other_method[method.len() as int]);
        }
        if other_method.len() < method.len() {
            assert(a[other_method.len() as int] == method[other_method.len() as int]);
        }
        let n = method.len() as int;
        assert(a.subrange(0, n) =~= method);
        assert(b.subrange(0, n) =~= other_method);
        assert(a.subrange(n + 1, a.len() as int) =~= id);
        assert(b.subrange(n + 1, b.len() as int) =~= other_id);
    }
}

/// The identity that an operation determines begins with its prefix; with another prefix it has the
/// same end; and its digits are those of the first sixteen bytes of a digest.
pub proof fn law_identities_are_prefixed(
    prefix: Seq<char>,
    other: Seq<char>,
    method: Seq<char>,
    id: Seq<char>,
)
    ensures
        ({
            let made = identity(prefix, method, id);
            let again = identity(other, method, id);
            &&& made.subrange(0, prefix.len() as int) == prefix
            &&& made.subrange(prefix.len() as int, made.len() as int) == again.subrange(
                other.len() as int,
                again.len() as int,
            )
            &&& made.len() <= prefix.len() + 32
        }),
{
    let digits = hex_of_prefix(
        sha256(encode_utf8("centaeris:"@ + identity_source(method, id))),
        16,
    );
    assert((prefix + digits).subrange(0, prefix.len() as int) =~= prefix);
    assert((prefix + digits).subrange(prefix.len() as int, (prefix + digits).len() as int)
        =~= digits);
    assert((other + digits).subrange(other.len() as int, (other + digits).len() as int) =~= digits);
}

/// The receipt of an operation stands in one directory for each method, whose name has no separator
/// of paths.
pub proof fn law_receipts_stand_in_plain_directories(method: Seq<char>, id: Seq<char>)
    ensures
        receipt_location(method, id).0.len() == method.len(),
        forall|i: int|
            0 <= i < method.len() ==> #[trigger] receipt_location(method, id).0[i] != '/' && (
            method[i] != '/' ==> receipt_location(method, id).0[i] == method[i]),
{
}

/// A stored receipt is taken exactly where it has the known version and is that of the operation.
pub proof fn law_receipts_answer_their_operation(
    version: u32,
    stored_method: Seq<char>,
    stored_id: Seq<char>,
    method: Seq<char>,
    id: Seq<char>,
)
    ensures
        receipt_error(version, stored_method, stored_id, method, id) is None <==> version == 1
            && stored_method == method && stored_id == id,
{
}

} // verus!
