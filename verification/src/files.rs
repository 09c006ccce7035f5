//! The decisions the command line makes about its input files.
use vstd::prelude::*;
use vstd::string::StringExecFns;
use vstd::utf8::encode_utf8;

verus! {

/// ASCII upper case letters to lower case; other bytes unchanged.
pub open spec fn ascii_lower(b: u8) -> u8 {
    if 65 <= b <= 90 {
        (b + 32) as u8
    } else {
        b
    }
}

/// `str::eq_ignore_ascii_case` on the UTF-8 bytes of two strings.
pub open spec fn eq_ignore_ascii_case(a: Seq<u8>, b: Seq<u8>) -> bool {
    a.len() == b.len() && forall|i: int| 0 <= i < a.len() ==> ascii_lower(#[trigger] a[i]) == ascii_lower(b[i])
}

/// The MIME type under which a font is embedded: `font/otf` for the file
/// extension `otf` in any case, else `font/ttf`.
pub open spec fn mime_type_of(extension: Option<Seq<char>>) -> Seq<char> {
    match extension {
        Some(e) => if eq_ignore_ascii_case(encode_utf8(e), seq![111u8, 116u8, 102u8]) {
            "font/otf"@
        } else {
            "font/ttf"@
        },
        None => "font/ttf"@,
    }
}

/// The MIME type of a font file with the given extension (the part of the
/// file name after its last dot, if any).
pub fn mime_type(extension: Option<&str>) -> (mime: &'static str)
    ensures
        mime@ == mime_type_of(
            match extension {
                Some(e) => Some(e@),
                None => None,
            },
        ),
{
    match extension {
        Some(e) => {
            let bytes = e.as_bytes();
            let otf: [u8; 3] = [111u8, 116u8, 102u8];
            assert(bytes@ == encode_utf8(e@));
            if bytes.len() != 3 {
                return "font/ttf";
            }
            let mut i: usize = 0;
            while i < 3
                invariant
                    i <= 3,
                    bytes.len() == 3,
                    extension == Some(e),
                    bytes@ == encode_utf8(e@),
                    otf@ == seq![111u8, 116u8, 102u8],
                    forall|j: int| 0 <= j < i ==> ascii_lower(#[trigger] bytes@[j]) == ascii_lower(otf@[j]),
                decreases 3 - i,
            {
                let b = bytes[i];
                let lower = if 65 <= b && b <= 90 {
                    b + 32
                } else {
                    b
                };
                if lower != otf[i] {
                    assert(ascii_lower(bytes@[i as int]) != ascii_lower(otf@[i as int]));
                    assert(!eq_ignore_ascii_case(bytes@, otf@));
                    return "font/ttf";
                }
                i = i + 1;
            }
            assert(eq_ignore_ascii_case(bytes@, seq![111u8, 116u8, 102u8]));
            "font/otf"
        },
        None => "font/ttf",
    }
}

/// The error message for a font file that does not exist.
pub open spec fn not_found_message(label: Seq<char>, path: Seq<char>) -> Seq<char> {
    label + " font file not found: "@ + path
}

/// Succeeds when the file exists; otherwise the error names the file.
pub fn ensure_exists(exists: bool, label: &str, path: &str) -> (r: Result<(), String>)
    ensures
        r is Ok <==> exists,
        r matches Err(message) ==> message@ == not_found_message(label@, path@),
{
    if exists {
        Ok(())
    } else {
        let mut message = String::new();
        message.append(label);
        message.append(" font file not found: ");
        message.append(path);
        Err(message)
    }
}

} // verus!
