//! The request sent to the render service and the regional variants it knows.

use vstd::prelude::*;

verus! {

/// A regional variant of written Chinese that the render service can target.
#[derive(Debug, Clone, Copy, PartialEq, Eq, Structural)]
pub enum ZhVariant {
    Cn,
    Hk,
    Mo,
    My,
    Sg,
    Tw,
}

impl ZhVariant {
    /// The language tag of the variant, as the render service spells it.
    pub open spec fn tag(self) -> Seq<char> {
        match self {
            ZhVariant::Cn => "zh-cn"@,
            ZhVariant::Hk => "zh-hk"@,
            ZhVariant::Mo => "zh-mo"@,
            ZhVariant::My => "zh-my"@,
            ZhVariant::Sg => "zh-sg"@,
            ZhVariant::Tw => "zh-tw"@,
        }
    }

    /// The language tag as an owned string.
    pub fn to_string(self) -> (s: String)
        ensures
            s@ == self.tag(),
    {
        self.as_str().to_owned()
    }

    /// The language tag as a string slice.
    pub fn as_str(self) -> (s: &'static str)
        ensures
            s@ == self.tag(),
    {
        match self {
            ZhVariant::Cn => "zh-cn",
            ZhVariant::Hk => "zh-hk",
            ZhVariant::Mo => "zh-mo",
            ZhVariant::My => "zh-my",
            ZhVariant::Sg => "zh-sg",
            ZhVariant::Tw => "zh-tw",
        }
    }
}

/// Where the render service listens.
pub const ENDPOINT: &'static str = "http://localhost:8080/api.php";

/// The arguments with which `curl` posts `text` to the render service at
/// `endpoint`: the request asks to parse, to answer in JSON, to read the
/// text as wikitext, and to render it in the given variant.
pub open spec fn request_arguments(endpoint: Seq<char>, text: Seq<char>, variant: ZhVariant) -> Seq<
    Seq<char>,
> {
    seq![
        "-X"@,
        "POST"@,
        endpoint,
        "--data-urlencode"@,
        "action=parse"@,
        "--data-urlencode"@,
        "format=json"@,
        "--data-urlencode"@,
        "contentmodel=wikitext"@,
        "--data-urlencode"@,
        "uselang="@ + variant.tag(),
        "--data-urlencode"@,
        "text="@ + text,
    ]
}

/// Builds the arguments of the request that renders `text`.
pub fn curl_arguments(endpoint: &str, text: &str, variant: ZhVariant) -> (arguments: Vec<String>)
    ensures
        arguments@.map_values(|s: String| s@) == request_arguments(endpoint@, text@, variant),
{
    let mut arguments: Vec<String> = Vec::new();
    arguments.push("-X".to_owned());
    arguments.push("POST".to_owned());
    arguments.push(endpoint.to_owned());
    arguments.push("--data-urlencode".to_owned());
    arguments.push("action=parse".to_owned());
    arguments.push("--data-urlencode".to_owned());
    arguments.push("format=json".to_owned());
    arguments.push("--data-urlencode".to_owned());
    arguments.push("contentmodel=wikitext".to_owned());
    arguments.push("--data-urlencode".to_owned());
    arguments.push("uselang=".to_owned().concat(variant.as_str()));
    arguments.push("--data-urlencode".to_owned());
    arguments.push("text=".to_owned().concat(text));
    assert(arguments@.map_values(|s: String| s@) =~= request_arguments(endpoint@, text@, variant));
    arguments
}

/// The rendered text of an answer of the render service.
#[derive(Debug)]
pub struct Text {
    pub content: String,
}

/// What the render service has parsed: the title and the number of the
/// page, and the rendered text.
#[derive(Debug)]
pub struct Parse {
    pub title: String,
    pub pageid: i32,
    pub text: Text,
}

/// An answer of the render service.
#[derive(Debug)]
pub struct ParseResponse {
    pub parse: Parse,
}

impl ParseResponse {
    /// The HTML that the answer carries.
    pub fn into_html(self) -> (html: String)
        ensures
            html@ == self.parse.text.content@,
    {
        self.parse.text.content
    }
}

/// The HTML of an answer of the render service, if there is an answer.
pub fn rendered_html(answer: Option<ParseResponse>) -> (html: Option<String>)
    ensures
        answer is None <==> html is None,
        answer matches Some(a) ==> html matches Some(h) && h@ == a.parse.text.content@,
{
    match answer {
        Some(a) => Some(a.into_html()),
        None => None,
    }
}

} // verus!
