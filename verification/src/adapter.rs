//! The form in which results are handed out.
use vstd::prelude::*;
use vstd::string::*;

verus! {

/// The form of a result.
#[derive(Debug, Clone, Copy, PartialEq, Eq, Structural)]
pub enum OutputFormat {
    /// Protobuf, for programs.
    Proto,
    /// JSON, for people.
    Json,
}

/// A letter as a small one; anything but an ASCII capital stays as it is.
pub open spec fn lowercase(c: char) -> char {
    if 'A' <= c && c <= 'Z' {
        (c as u8 + 32) as char
    } else {
        c
    }
}

/// Whether two texts are the same but for the case of ASCII letters.
pub open spec fn same_but_for_case(a: Seq<char>, b: Seq<char>) -> bool {
    a.len() == b.len() && forall|i: int|
        0 <= i < a.len() ==> lowercase(#[trigger] a[i]) == lowercase(b[i])
}

fn to_lowercase(c: char) -> (r: char)
    ensures
        r == lowercase(c),
{
    if 'A' <= c && c <= 'Z' {
        (c as u8 + 32) as char
    } else {
        c
    }
}

/// Whether two texts are the same but for the case of ASCII letters.
pub fn eq_ignore_ascii_case(a: &str, b: &str) -> (r: bool)
    ensures
        r == same_but_for_case(a@, b@),
{
    let left = crate::text::chars_of(a);
    let right = crate::text::chars_of(b);
    if left.len() != right.len() {
        return false;
    }
    for i in 0..left.len()
        invariant
            left@ == a@,
            right@ == b@,
            left@.len() == right@.len(),
            forall|k: int| 0 <= k < i ==> lowercase(#[trigger] a@[k]) == lowercase(b@[k]),
    {
        if to_lowercase(left[i]) != to_lowercase(right[i]) {
            assert(lowercase(a@[i as int]) != lowercase(b@[i as int]));
            return false;
        }
    }
    true
}

/// The form that a flag asks for. A flag that says nothing known asks for
/// what programs get.
pub open spec fn flagged_format(flag: Seq<char>) -> OutputFormat {
    if same_but_for_case(flag, "json"@) {
        OutputFormat::Json
    } else {
        OutputFormat::Proto
    }
}

impl OutputFormat {
    /// The form that a flag asks for.
    pub fn from_flag(flag: &str) -> (format: Self)
        ensures
            format == flagged_format(flag@),
    {
        if eq_ignore_ascii_case(flag, "json") {
            OutputFormat::Json
        } else {
            OutputFormat::Proto
        }
    }
}

/// Why a result could not be handed out.
#[derive(Debug)]
pub enum AdapterError {
    Proto(String),
    Json(String),
    Io { path: String, detail: String },
}

/// An `AdapterError` by its characters.
pub enum AdapterErrorView {
    Proto(Seq<char>),
    Json(Seq<char>),
    Io { path: Seq<char>, detail: Seq<char> },
}

impl View for AdapterError {
    type V = AdapterErrorView;

    open spec fn view(&self) -> AdapterErrorView {
        match *self {
            AdapterError::Proto(detail) => AdapterErrorView::Proto(detail@),
            AdapterError::Json(detail) => AdapterErrorView::Json(detail@),
            AdapterError::Io { path, detail } => AdapterErrorView::Io {
                path: path@,
                detail: detail@,
            },
        }
    }
}

/// An `AdapterError` in words.
pub open spec fn adapter_message(error: AdapterErrorView) -> Seq<char> {
    match error {
        AdapterErrorView::Proto(detail) => "failed to encode as protobuf: "@ + detail,
        AdapterErrorView::Json(detail) => "failed to encode as JSON: "@ + detail,
        AdapterErrorView::Io { path, detail } => "failed to write '"@ + path + "': "@ + detail,
    }
}

impl AdapterError {
    /// The error in words.
    pub fn to_string(&self) -> (s: String)
        ensures
            s@ == adapter_message(self@),
    {
        match self {
            AdapterError::Proto(detail) => String::from_str("failed to encode as protobuf: ").concat(
                detail,
            ),
            AdapterError::Json(detail) => String::from_str("failed to encode as JSON: ").concat(
                detail,
            ),
            AdapterError::Io { path, detail } => {
                let mut s = String::from_str("failed to write '");
                s.append(path);
                s.append("': ");
                s.append(detail);
                s
            },
        }
    }

    /// The error that encoding in a format failed.
    pub fn encoding(format: OutputFormat, detail: String) -> (error: AdapterError)
        ensures
            error@ == match format {
                OutputFormat::Proto => AdapterErrorView::Proto(detail@),
                OutputFormat::Json => AdapterErrorView::Json(detail@),
            },
    {
        match format {
            OutputFormat::Proto => AdapterError::Proto(detail),
            OutputFormat::Json => AdapterError::Json(detail),
        }
    }
}

/// A flag asks for JSON in whichever case it is written.
pub proof fn law_case_of_a_flag_is_irrelevant(a: Seq<char>, b: Seq<char>)
    requires
        same_but_for_case(a, b),
    ensures
        flagged_format(a) == flagged_format(b),
{
    let wanted = "json"@;
    if same_but_for_case(a, wanted) {
        assert forall|i: int| 0 <= i < b.len() implies lowercase(#[trigger] b[i]) == lowercase(
            wanted[i],
        ) by {
            assert(lowercase(a[i]) == lowercase(b[i]));
        }
    }
    if same_but_for_case(b, wanted) {
        assert forall|i: int| 0 <= i < a.len() implies lowercase(#[trigger] a[i]) == lowercase(
            wanted[i],
        ) by {
            assert(lowercase(b[i]) == lowercase(wanted[i]));
        }
    }
}

/// Only the capital letters of ASCII have a small one, and it is the one with
/// the same place in the alphabet.
pub proof fn law_letters_have_a_small_form(c: char)
    ensures
        'A' <= c <= 'Z' ==> lowercase(c) as int - 'a' as int == c as int - 'A' as int,
        !('A' <= c <= 'Z') ==> lowercase(c) == c,
        lowercase(lowercase(c)) == lowercase(c),
{
}

/// A flag asks for JSON exactly if it spells `json` in capitals or small
/// letters; any other flag asks for protobuf.
pub proof fn law_flags_that_ask_for_json(flag: Seq<char>)
    ensures
        flagged_format(flag) == OutputFormat::Json <==> {
            &&& flag.len() == 4
            &&& flag[0] == 'j' || flag[0] == 'J'
            &&& flag[1] == 's' || flag[1] == 'S'
            &&& flag[2] == 'o' || flag[2] == 'O'
            &&& flag[3] == 'n' || flag[3] == 'N'
        },
        flagged_format(flag) != OutputFormat::Json ==> flagged_format(flag) == OutputFormat::Proto,
{
    let wanted = "json"@;
    reveal_strlit("json");
    if same_but_for_case(flag, wanted) {
        assert(lowercase(flag[0]) == lowercase(wanted[0]));
        assert(lowercase(flag[1]) == lowercase(wanted[1]));
        assert(lowercase(flag[2]) == lowercase(wanted[2]));
        assert(lowercase(flag[3]) == lowercase(wanted[3]));
    }
}

/// The words for each error of handing out.
pub proof fn law_errors_of_handing_out_in_words(path: Seq<char>, detail: Seq<char>)
    ensures
        adapter_message(AdapterErrorView::Proto(detail)) == "failed to encode as protobuf: "@
            + detail,
        adapter_message(AdapterErrorView::Json(detail)) == "failed to encode as JSON: "@ + detail,
        adapter_message(AdapterErrorView::Io { path, detail }) == "failed to write '"@ + path
            + "': "@ + detail,
{
}

} // verus!
