//! HTTP requests as plain values.
use crate::option;
use vstd::prelude::*;

verus! {

/// The method of a request.
#[derive(Clone, Copy, Debug, PartialEq, Eq, Structural)]
pub enum Method {
    Get,
    Post,
    Put,
    Patch,
    Delete,
}

impl Method {
    /// The name of the method on the wire.
    pub open spec fn name(self) -> Seq<char> {
        match self {
            Method::Get => "GET"@,
            Method::Post => "POST"@,
            Method::Put => "PUT"@,
            Method::Patch => "PATCH"@,
            Method::Delete => "DELETE"@,
        }
    }

    /// The name of the method on the wire.
    pub fn as_str(self) -> (name: &'static str)
        ensures
            name@ == self.name(),
    {
        match self {
            Method::Get => "GET",
            Method::Post => "POST",
            Method::Put => "PUT",
            Method::Patch => "PATCH",
            Method::Delete => "DELETE",
        }
    }
}

/// The body of a request: a text that is sent as it stands, or a value to be sent as JSON.
pub enum Body<J> {
    Text(String),
    Json(J),
}

/// A [`Body`] with its text as a sequence.
pub enum BodyView<J> {
    Text(Seq<char>),
    Json(J),
}

impl<J> View for Body<J> {
    type V = BodyView<J>;

    open spec fn view(&self) -> BodyView<J> {
        match self {
            Body::Text(text) => BodyView::Text(text@),
            Body::Json(json) => BodyView::Json(*json),
        }
    }
}

/// A request that is ready to be sent. It carries a secret in the clear, in its headers or in its
/// body, and has no debug output for that reason.
pub struct HttpRequest<J> {
    pub method: Method,
    pub url: String,
    pub headers: Vec<(String, String)>,
    pub body: Body<J>,
}

/// An [`HttpRequest`] with its texts as sequences.
pub struct HttpRequestView<J> {
    pub method: Method,
    pub url: Seq<char>,
    pub headers: Seq<option::Pair>,
    pub body: BodyView<J>,
}

impl<J> View for HttpRequest<J> {
    type V = HttpRequestView<J>;

    open spec fn view(&self) -> HttpRequestView<J> {
        HttpRequestView {
            method: self.method,
            url: self.url@,
            headers: option::entry_pairs(self.headers@),
            body: self.body@,
        }
    }
}

/// The view of a request leaves nothing out and adds nothing.
pub proof fn law_request_view_is_whole<J>(request: HttpRequest<J>)
    ensures
        request@.method == request.method,
        request@.url == request.url@,
        request@.headers.len() == request.headers@.len(),
        forall|i: int|
            0 <= i < request.headers@.len() ==> #[trigger] request@.headers[i] == (
                request.headers@[i].0@,
                request.headers@[i].1@,
            ),
        match request.body {
            Body::Text(text) => request@.body == BodyView::<J>::Text(text@),
            Body::Json(json) => request@.body == BodyView::Json(json),
        },
{
}

/// Each method has the name that HTTP gives it.
pub proof fn law_methods_have_their_names()
    ensures
        Method::Get.name() == "GET"@,
        Method::Post.name() == "POST"@,
        Method::Put.name() == "PUT"@,
        Method::Patch.name() == "PATCH"@,
        Method::Delete.name() == "DELETE"@,
{
}

} // verus!
