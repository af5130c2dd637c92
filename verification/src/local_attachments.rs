//! Images that a user attaches to a message: where they stand in the message, and how they are
//! kept by their digests.

use crate::digest::{hex_sha256, sha256, valid_digest_hex, valid_hex};
use crate::json::{text_json, Json, JsonView};
use crate::observation_cas::agrees;
use crate::text::{
    after_prefix, blank, law_trimming_takes_off_the_whitespace_around, concat2, concat3, count_occurrences, decimal, decimal_text, hex, occurrences,
    strip_prefix, text_equals, trim, trimmed,
};
use vstd::prelude::*;

verus! {

pub const MAX_IMAGES_PER_MESSAGE: usize = 8;

pub const INPUT_REF_PREFIX: &'static str = "local-image:";

/// An image that is attached to a message: the text that stands for it in the message, and where
/// it is.
#[derive(Debug)]
pub struct LocalImageInputRequest {
    pub placeholder: String,
    pub local_path: String,
}

/// Whether an earlier image has the placeholder of the image at `n`.
pub open spec fn repeats(requests: Seq<LocalImageInputRequest>, n: int) -> bool {
    exists|j: int|
        0 <= j < n && (#[trigger] requests[j]).placeholder@ == requests[n].placeholder@
}

/// Whether the placeholder of the image at `n` stands for it: it is not blank, it stands once in
/// the message, and no earlier image has it.
pub open spec fn placeholder_valid(
    requests: Seq<LocalImageInputRequest>,
    message: Seq<char>,
    n: int,
) -> bool {
    trimmed(requests[n].placeholder@).len() > 0 && occurrences(message, requests[n].placeholder@)
        == 1 && !repeats(requests, n)
}

/// What is wrong with the images of a message.
pub open spec fn images_error(requests: Seq<LocalImageInputRequest>, message: Seq<char>) -> Option<
    Seq<char>,
> {
    if requests.len() > MAX_IMAGES_PER_MESSAGE {
        Some("too many input images: maximum 8"@)
    } else if exists|n: int|
        0 <= n < requests.len() && !#[trigger] placeholder_valid(requests, message, n) {
        Some("input image placeholder is invalid"@)
    } else {
        None
    }
}

proof fn lemma_blank()
    ensures
        trimmed(Seq::<char>::empty()) == Seq::<char>::empty(),
{
}

fn repeats_earlier(requests: &Vec<LocalImageInputRequest>, n: usize) -> (result: bool)
    requires
        n < requests.len(),
    ensures
        result == repeats(requests@, n as int),
{
    let mut j: usize = 0;
    while j < n
        invariant
            j <= n,
            n < requests.len(),
            forall|k: int|
                0 <= k < j ==> (#[trigger] requests@[k]).placeholder@
                    != requests@[n as int].placeholder@,
        decreases n - j,
    {
        if text_equals(requests[j].placeholder.as_str(), requests[n].placeholder.as_str()) {
            return true;
        }
        j = j + 1;
    }
    false
}

/// Accepts the images of a message where there are not too many and each is stood for in it.
pub fn check_images(requests: &Vec<LocalImageInputRequest>, message: &str) -> (result: Result<
    (),
    String,
>)
    ensures
        match result {
            Ok(_) => images_error(requests@, message@) == None::<Seq<char>>,
            Err(text) => images_error(requests@, message@) == Some(text@),
        },
{
    if requests.len() > MAX_IMAGES_PER_MESSAGE {
        return Err("too many input images: maximum 8".to_owned());
    }
    let mut n: usize = 0;
    while n < requests.len()
        invariant
            n <= requests.len() <= MAX_IMAGES_PER_MESSAGE,
            forall|k: int| 0 <= k < n ==> #[trigger] placeholder_valid(requests@, message@, k),
        decreases requests.len() - n,
    {
        let placeholder = requests[n].placeholder.as_str();
        proof {
            lemma_blank();
            if placeholder@.len() == 0 {
                assert(placeholder@ =~= Seq::empty());
            }
        }
        if trim(placeholder).is_empty() || count_occurrences(message, placeholder) != 1
            || repeats_earlier(requests, n) {
            assert(!placeholder_valid(requests@, message@, n as int));
            return Err("input image placeholder is invalid".to_owned());
        }
        assert(placeholder_valid(requests@, message@, n as int));
        n = n + 1;
    }
    Ok(())
}

/// The reference by which an image with the given digest is known.
pub open spec fn input_ref(digest: Seq<char>) -> Seq<char> {
    INPUT_REF_PREFIX@ + digest
}

/// What a message holds of an attached image.
pub open spec fn image_record(digest: Seq<char>, number: nat, placeholder: Seq<char>) -> JsonView {
    JsonView::Object(
        seq![
            ("inputRef"@, JsonView::Text(input_ref(digest))),
            ("displayName"@, JsonView::Text("Image "@ + decimal(number))),
            ("contentType"@, JsonView::Text("image/png"@)),
            ("placeholder"@, JsonView::Text(placeholder)),
        ],
    )
}

/// What a message holds of an attached image.
pub fn imported_image(digest: &str, number: u64, placeholder: &str) -> (result: Json)
    ensures
        result@ == image_record(digest@, number as nat, placeholder@),
{
    let count = decimal_text(number);
    let mut entries: Vec<(String, Json)> = Vec::new();
    entries.push(("inputRef".to_owned(), text_json(concat2(INPUT_REF_PREFIX, digest).as_str())));
    entries.push(
        ("displayName".to_owned(), text_json(concat2("Image ", count.as_str()).as_str())),
    );
    entries.push(("contentType".to_owned(), text_json("image/png")));
    entries.push(("placeholder".to_owned(), text_json(placeholder)));
    let result = Json::Object(entries);
    assert(result@->Object_0 =~= image_record(
        digest@,
        number as nat,
        placeholder@,
    )->Object_0);
    result
}

/// The name of the file in which an image with the given digest is kept.
pub fn managed_image_name(digest: &str) -> (result: Result<String, String>)
    ensures
        agrees(
            result,
            |name: String| name@,
            if valid_hex(digest@) {
                Ok(digest@ + ".png"@)
            } else {
                Err("managed input image digest is invalid"@)
            },
        ),
{
    if !valid_digest_hex(digest) {
        return Err("managed input image digest is invalid".to_owned());
    }
    Ok(concat2(digest, ".png"))
}

/// The digest in a reference to an image.
pub open spec fn referenced_digest(input_ref: Seq<char>, content_type: Seq<char>) -> Result<
    Seq<char>,
    Seq<char>,
> {
    if content_type != "image/png"@ {
        Err("unsupported managed image contentType: "@ + content_type)
    } else {
        match after_prefix(input_ref, INPUT_REF_PREFIX@) {
            Some(digest) => if valid_hex(digest) {
                Ok(digest)
            } else {
                Err("invalid managed image inputRef: "@ + input_ref)
            },
            None => Err("invalid managed image inputRef: "@ + input_ref),
        }
    }
}

/// The digest in a reference to an image.
pub fn resolve_input_ref(input_ref: &str, content_type: &str) -> (result: Result<String, String>)
    ensures
        agrees(
            result,
            |digest: String| digest@,
            referenced_digest(input_ref@, content_type@),
        ),
{
    if !text_equals(content_type, "image/png") {
        return Err(concat2("unsupported managed image contentType: ", content_type));
    }
    match strip_prefix(input_ref, INPUT_REF_PREFIX) {
        Some(digest) => if valid_digest_hex(digest) {
            Ok(digest.to_owned())
        } else {
            Err(concat2("invalid managed image inputRef: ", input_ref))
        },
        None => Err(concat2("invalid managed image inputRef: ", input_ref)),
    }
}

/// Accepts the file of an image that is neither empty nor too large.
pub fn check_image_file(is_file: bool, length: u64, maximum: u64) -> (result: Result<(), String>)
    ensures
        match result {
            Ok(_) => is_file && 0 < length <= maximum,
            Err(message) => !(is_file && 0 < length <= maximum) && message@
                == "input image size is invalid: bytes="@ + decimal(length as nat) + " maximum="@
                + decimal(maximum as nat),
        },
{
    if !is_file || length == 0 || length > maximum {
        let bytes = decimal_text(length);
        let limit = decimal_text(maximum);
        let mut message = concat3(
            "input image size is invalid: bytes=",
            bytes.as_str(),
            " maximum=",
        );
        message.append(limit.as_str());
        return Err(message);
    }
    Ok(())
}

/// Accepts an image of the type that can be attached; `inspected` is what looking at its bytes came
/// to.
pub fn require_png(inspected: Result<String, String>) -> (result: Result<(), String>)
    ensures
        match inspected {
            Err(error) => result matches Err(message) && message@ == error@,
            Ok(content_type) => if content_type@ == "image/png"@ {
                result is Ok
            } else {
                result matches Err(message) && message@ == "input image must be PNG"@
            },
        },
{
    match inspected {
        Err(error) => Err(error),
        Ok(content_type) => if text_equals(content_type.as_str(), "image/png") {
            Ok(())
        } else {
            Err("input image must be PNG".to_owned())
        },
    }
}

/// Whether bytes are those of the image with the given digest.
pub open spec fn is_image(bytes: Seq<u8>, digest: Seq<char>) -> bool {
    hex(sha256(bytes)) == digest
}

/// Accepts the bytes of the file of an image where they have its digest.
pub fn verify_managed_image(bytes: &[u8], expected_digest: &str, path: &str) -> (result: Result<
    (),
    String,
>)
    ensures
        match result {
            Ok(_) => is_image(bytes@, expected_digest@),
            Err(message) => !is_image(bytes@, expected_digest@) && message@
                == "managed input image is corrupt: "@ + path@,
        },
{
    let digest = hex_sha256(bytes);
    if !text_equals(digest.as_str(), expected_digest) {
        return Err(concat2("managed input image is corrupt: ", path));
    }
    Ok(())
}

/// The digest by which an image is kept.
pub fn image_digest(bytes: &[u8]) -> (result: String)
    ensures
        is_image(bytes@, result@),
        valid_hex(result@),
        referenced_digest(input_ref(result@), "image/png"@) == Ok::<Seq<char>, Seq<char>>(result@),
{
    let digest = hex_sha256(bytes);
    proof {
        law_references_read_back(digest@);
    }
    digest
}

/// A reference to an image gives back the digest that it was made of.
pub proof fn law_references_read_back(digest: Seq<char>)
    requires
        valid_hex(digest),
    ensures
        referenced_digest(input_ref(digest), "image/png"@) == Ok::<Seq<char>, Seq<char>>(digest),
{
    let reference = input_ref(digest);
    let n = INPUT_REF_PREFIX@.len() as int;
    assert(reference.subrange(0, n) =~= INPUT_REF_PREFIX@);
    assert(reference.subrange(n, reference.len() as int) =~= digest);
}

/// The images of a message are accepted exactly where there are at most eight, and each has a
/// placeholder of its own that says something and stands in the message exactly once.
pub proof fn law_images_have_their_place_in_the_message(
    requests: Seq<LocalImageInputRequest>,
    message: Seq<char>,
)
    ensures
        images_error(requests, message) is None <==> {
            &&& requests.len() <= 8
            &&& forall|i: int|
                0 <= i < requests.len() ==> !blank((#[trigger] requests[i]).placeholder@)
                    && occurrences(message, requests[i].placeholder@) == 1
            &&& forall|i: int, j: int|
                0 <= i < j < requests.len() ==> (#[trigger] requests[i]).placeholder@ != (
                #[trigger] requests[j]).placeholder@
        },
        requests.len() > 8 ==> images_error(requests, message) == Some(
            "too many input images: maximum 8"@,
        ),
{
    assert forall|i: int| 0 <= i < requests.len() implies (trimmed(
        (#[trigger] requests[i]).placeholder@,
    ).len() > 0 <==> !blank(requests[i].placeholder@)) by {
        law_trimming_takes_off_the_whitespace_around(requests[i].placeholder@);
    }
    if images_error(requests, message) is None {
        assert forall|i: int| 0 <= i < requests.len() implies !blank(
            (#[trigger] requests[i]).placeholder@,
        ) && occurrences(message, requests[i].placeholder@) == 1 by {
            assert(placeholder_valid(requests, message, i));
        }
        assert forall|i: int, j: int| 0 <= i < j < requests.len() implies (
        #[trigger] requests[i]).placeholder@ != (#[trigger] requests[j]).placeholder@ by {
            assert(placeholder_valid(requests, message, j));
        }
    } else if requests.len() <= 8 {
        let n = choose|n: int|
            0 <= n < requests.len() && !#[trigger] placeholder_valid(requests, message, n);
        if repeats(requests, n) {
            let j = choose|j: int|
                0 <= j < n && (#[trigger] requests[j]).placeholder@ == requests[n].placeholder@;
            assert(requests[j].placeholder@ == requests[n].placeholder@);
        } else {
            assert(blank(requests[n].placeholder@) || occurrences(
                message,
                requests[n].placeholder@,
            ) != 1);
        }
    }
}

/// What is recorded of an image: a reference to its digest, its number and its placeholder.
pub proof fn law_images_are_recorded_by_digest(digest: Seq<char>, number: nat, placeholder: Seq<char>)
    ensures
        ({
            let entries = image_record(digest, number, placeholder)->Object_0;
            &&& image_record(digest, number, placeholder) is Object
            &&& entries.len() == 4
            &&& entries.contains(("inputRef"@, JsonView::Text("local-image:"@ + digest)))
            &&& entries.contains(("displayName"@, JsonView::Text("Image "@ + decimal(number))))
            &&& entries.contains(("contentType"@, JsonView::Text("image/png"@)))
            &&& entries.contains(("placeholder"@, JsonView::Text(placeholder)))
        }),
{
    let entries = image_record(digest, number, placeholder)->Object_0;
    assert(entries[0] == ("inputRef"@, JsonView::Text("local-image:"@ + digest)));
    assert(entries[1] == ("displayName"@, JsonView::Text("Image "@ + decimal(number))));
    assert(entries[2] == ("contentType"@, JsonView::Text("image/png"@)));
    assert(entries[3] == ("placeholder"@, JsonView::Text(placeholder)));
}

/// A reference to an image is read exactly where it is of the one type that there is and names a
/// digest behind its prefix.
pub proof fn law_references_name_a_digest(reference: Seq<char>, content_type: Seq<char>, digest: Seq<char>)
    ensures
        referenced_digest(reference, content_type) == Ok::<Seq<char>, Seq<char>>(digest) <==> content_type
            == "image/png"@ && valid_hex(digest) && reference == "local-image:"@ + digest,
{
    let prefix = "local-image:"@;
    if reference == prefix + digest {
        assert(reference.subrange(0, prefix.len() as int) =~= prefix);
        assert(reference.subrange(prefix.len() as int, reference.len() as int) =~= digest);
    }
    if after_prefix(reference, prefix) == Some(digest) {
        assert(reference =~= prefix + digest);
    }
}

} // verus!
