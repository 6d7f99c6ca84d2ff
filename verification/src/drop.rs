//! File dropping: where the dropped bytes come from, what the file is
//! called and typed as, and the page script that drops it on an element
//! (and feeds a file input under it).

use vstd::prelude::*;
use crate::base64::{decode, decode_spec, encode, encode_spec};
use crate::mime::{guess_mime, guess_mime_spec};
use crate::text::{decimal, file_name, final_component, json_quote, json_string, push_decimal, push_str};

verus! {

/// Largest payload a drop may carry, in bytes.
pub const INLINE_MAX_BYTES: usize = 8388608;

/// Largest base64 text that can decode to at most `INLINE_MAX_BYTES`.
pub const MAX_ENCODED_LEN: usize = 11184812;

/// Why a drop was refused.
#[derive(Clone, Debug)]
pub enum DropFileError {
    /// Inline data longer than `MAX_ENCODED_LEN`.
    DataTooLarge,
    /// Inline data that is not canonical base64.
    InvalidBase64,
    /// The file at `path` holds `size` bytes, more than `INLINE_MAX_BYTES`.
    FileTooLarge { path: String, size: usize },
    /// The file at `path` could not be read.
    ReadFailed { path: String, error: String },
    /// Neither inline data nor a path was given.
    NoSource,
}

pub const DROP_BODY: &'static str = r#"
const binary = atob(B64);
const bytes = new Uint8Array(binary.length);
for (let i = 0; i < binary.length; i++) bytes[i] = binary.charCodeAt(i);
const file = new File([bytes], NAME, { type: MIME });
const dt = new DataTransfer();
dt.items.add(file);
el.scrollIntoView({ block: 'center', behavior: 'instant' });
const rect = el.getBoundingClientRect();
const opts = { bubbles: true, cancelable: true, dataTransfer: dt,
               clientX: rect.left + rect.width / 2, clientY: rect.top + rect.height / 2 };
el.dispatchEvent(new DragEvent('dragenter', opts));
el.dispatchEvent(new DragEvent('dragover', opts));
const accepted = el.dispatchEvent(new DragEvent('drop', opts));
// Drop zones wrapping a hidden <input type=file> often only listen on
// the input; feed it too so both wiring styles work.
const input = el.matches('input[type=file]') ? el : el.querySelector('input[type=file]');
if (input) {
  const inputDt = new DataTransfer();
  inputDt.items.add(file);
  input.files = inputDt.files;
  input.dispatchEvent(new Event('input', { bubbles: true }));
  input.dispatchEvent(new Event('change', { bubbles: true }));
}
return { dropped: matched, name: NAME, mime: MIME, bytes: bytes.length,
          defaultPrevented: !accepted, fedInput: !!input, url: location.href };"#;

/// `MAX_ENCODED_LEN` is the base64 length of `INLINE_MAX_BYTES` bytes.
pub proof fn lemma_max_encoded_len()
    ensures
        MAX_ENCODED_LEN == (INLINE_MAX_BYTES + 2) / 3 * 4,
{
}

/// What a drop's payload request yields: inline base64 `data` wins over
/// a file; the file (its path and what reading it gave) must have been
/// readable and fit `INLINE_MAX_BYTES`; with neither there is nothing to
/// drop. `data_bytes` is the UTF-8 length of `data`.
pub open spec fn drop_payload_result(
    data: Option<Seq<char>>,
    data_bytes: nat,
    file: Option<(Seq<char>, Result<Seq<u8>, Seq<char>>)>,
    r: Result<Seq<u8>, DropFileError>,
) -> bool {
    match data {
        Some(d) => if data_bytes > MAX_ENCODED_LEN {
            r matches Err(DropFileError::DataTooLarge)
        } else {
            match decode_spec(d) {
                Some(b) => r == Ok::<Seq<u8>, DropFileError>(b),
                None => r matches Err(DropFileError::InvalidBase64),
            }
        },
        None => match file {
            None => r matches Err(DropFileError::NoSource),
            Some((p, Err(e))) => r matches Err(DropFileError::ReadFailed { path, error }) && path@
                == p && error@ == e,
            Some((p, Ok(b))) => if b.len() <= INLINE_MAX_BYTES {
                r == Ok::<Seq<u8>, DropFileError>(b)
            } else {
                r matches Err(DropFileError::FileTooLarge { path, size }) && path@ == p && size
                    == b.len()
            },
        },
    }
}

/// The bytes a drop carries. `file` is the path with the outcome of
/// reading it (the caller reads it only when no inline data is given;
/// when both are given the file is ignored).
pub fn drop_file_payload(data: Option<&str>, file: Option<(&str, Result<Vec<u8>, String>)>) -> (r:
    Result<Vec<u8>, DropFileError>)
    ensures
        drop_payload_result(
            match data {
                Some(text) => Some(text@),
                None => None,
            },
            match data {
                Some(encoded) => encoded.len() as nat,
                None => 0,
            },
            match file {
                Some((read_path, Ok(contents))) => Some((read_path@, Ok(contents@))),
                Some((failed_path, Err(reason))) => Some((failed_path@, Err(reason@))),
                None => None,
            },
            match r {
                Ok(payload) => Ok(payload@),
                Err(refusal) => Err(refusal),
            },
        ),
{
    match data {
        Some(d) => {
            if d.len() > MAX_ENCODED_LEN {
                return Err(DropFileError::DataTooLarge);
            }
            match decode(d) {
                Some(b) => Ok(b),
                None => Err(DropFileError::InvalidBase64),
            }
        },
        None => match file {
            None => Err(DropFileError::NoSource),
            Some((p, Err(e))) => Err(DropFileError::ReadFailed { path: p.to_owned(), error: e }),
            Some((p, Ok(b))) => {
                if b.len() <= INLINE_MAX_BYTES {
                    Ok(b)
                } else {
                    let size = b.len();
                    Err(DropFileError::FileTooLarge { path: p.to_owned(), size })
                }
            },
        },
    }
}

/// The name the dropped file gets: the one asked for, else the path's
/// final component, else `file`.
pub open spec fn drop_name_spec(name: Option<Seq<char>>, path: Option<Seq<char>>) -> Seq<char> {
    match name {
        Some(n) => n,
        None => match path {
            Some(p) => match final_component(p) {
                Some(f) => f,
                None => "file"@,
            },
            None => "file"@,
        },
    }
}

/// The media type the dropped file gets: the one asked for, else the one
/// its name suggests.
pub open spec fn drop_mime_spec(mime: Option<Seq<char>>, name: Seq<char>) -> Seq<char> {
    match mime {
        Some(m) => m,
        None => guess_mime_spec(name),
    }
}

/// The drop script.
pub open spec fn drop_script(prelude: Seq<char>, bytes: Seq<u8>, name: Seq<char>, mime: Seq<char>) -> Seq<
    char,
> {
    prelude + "\nconst B64 = "@ + json_string(encode_spec(bytes)) + ";\nconst NAME = "@
        + json_string(name) + ";\nconst MIME = "@ + json_string(mime) + ";"@ + DROP_BODY@
}

impl DropFileError {
    /// The message a refused drop is answered with.
    pub open spec fn message_spec(self) -> Seq<char> {
        match self {
            DropFileError::DataTooLarge => "drop_file data exceeds the "@ + decimal(
                INLINE_MAX_BYTES as nat,
            ) + "-byte decoded limit"@,
            DropFileError::InvalidBase64 => "drop_file data is not valid base64"@,
            DropFileError::FileTooLarge { path, size } => path@ + " is "@ + decimal(size as nat)
                + " bytes; drop_file caps at "@ + decimal(INLINE_MAX_BYTES as nat),
            DropFileError::ReadFailed { path, error } => "cannot read "@ + path@ + ": "@ + error@,
            DropFileError::NoSource => "drop_file needs path or data"@,
        }
    }

    /// The message a refused drop is answered with.
    pub fn message(&self) -> (m: String)
        ensures
            m@ == self.message_spec(),
    {
        let mut m = String::new();
        match self {
            DropFileError::DataTooLarge => {
                push_str(&mut m, "drop_file data exceeds the ");
                push_decimal(&mut m, INLINE_MAX_BYTES as u64);
                push_str(&mut m, "-byte decoded limit");
            },
            DropFileError::InvalidBase64 => push_str(&mut m, "drop_file data is not valid base64"),
            DropFileError::FileTooLarge { path, size } => {
                push_str(&mut m, path.as_str());
                push_str(&mut m, " is ");
                push_decimal(&mut m, *size as u64);
                push_str(&mut m, " bytes; drop_file caps at ");
                push_decimal(&mut m, INLINE_MAX_BYTES as u64);
            },
            DropFileError::ReadFailed { path, error } => {
                push_str(&mut m, "cannot read ");
                push_str(&mut m, path.as_str());
                push_str(&mut m, ": ");
                push_str(&mut m, error.as_str());
            },
            DropFileError::NoSource => push_str(&mut m, "drop_file needs path or data"),
        }
        m
    }
}

/// The name the dropped file gets, given the final component of its path
/// (when there is a path and it has one): the name asked for, else that
/// component, else `file`.
pub fn pick_drop_name(name: Option<String>, path_name: Option<String>) -> (n: String)
    ensures
        n@ == match name {
            Some(s) => s@,
            None => match path_name {
                Some(p) => p@,
                None => "file"@,
            },
        },
{
    match name {
        Some(n) => n,
        None => match path_name {
            Some(p) => p,
            None => {
                let mut f = String::new();
                push_str(&mut f, "file");
                f
            },
        },
    }
}

/// The name the dropped file gets; the path is only consulted when no
/// name is asked for.
pub fn drop_file_name(name: Option<String>, path: Option<&str>) -> (n: String)
    ensures
        n@ == drop_name_spec(
            match name {
                Some(s) => Some(s@),
                None => None,
            },
            match path {
                Some(p) => Some(p@),
                None => None,
            },
        ),
{
    if name.is_some() {
        return pick_drop_name(name, None);
    }
    let path_name = match path {
        Some(p) => file_name(p),
        None => None,
    };
    pick_drop_name(name, path_name)
}

/// The script that drops `bytes`, as a file called `name` of type `mime`
/// (or the type its name suggests), on the element that `prelude` selects.
pub fn drop_file(prelude: &str, bytes: &[u8], name: &str, mime: Option<&str>) -> (js: String)
    ensures
        js@ == drop_script(
            prelude@,
            bytes@,
            name@,
            drop_mime_spec(
                match mime {
                    Some(m) => Some(m@),
                    None => None,
                },
                name@,
            ),
        ),
{
    let m: &str = match mime {
        Some(m) => m,
        None => guess_mime(name),
    };
    let b64 = encode(bytes);
    let mut js = String::new();
    push_str(&mut js, prelude);
    push_str(&mut js, "\nconst B64 = ");
    let q = json_quote(b64.as_str());
    push_str(&mut js, q.as_str());
    push_str(&mut js, ";\nconst NAME = ");
    let q = json_quote(name);
    push_str(&mut js, q.as_str());
    push_str(&mut js, ";\nconst MIME = ");
    let q = json_quote(m);
    push_str(&mut js, q.as_str());
    push_str(&mut js, ";");
    push_str(&mut js, DROP_BODY);
    js
}

} // verus!
