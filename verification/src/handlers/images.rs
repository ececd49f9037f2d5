//! Image generation: a real, tiny image, so that a client's decoding is put to work.

use vstd::prelude::*;
use vstd::string::*;

use crate::handlers::{self, b64, respond, Action, ActionModel, Handler};
use crate::json::{self, Json, Members, Tree};
use crate::response::{self, HttpResponse, ParsedRequest, RequestModel};
use crate::responses;
use crate::state::{State, StateModel};
use crate::text::same;

verus! {

/// The path of the endpoint.
pub const IMAGES_PATH: &'static str = "/v1/images/generations";

/// A black image of one pixel.
pub const PNG_1X1: [u8; 69] = [
    0x89, 0x50, 0x4e, 0x47, 0x0d, 0x0a, 0x1a, 0x0a, 0x00, 0x00, 0x00, 0x0d, 0x49, 0x48, 0x44, 0x52,
    0x00, 0x00, 0x00, 0x01, 0x00, 0x00, 0x00, 0x01, 0x08, 0x02, 0x00, 0x00, 0x00, 0x90, 0x77, 0x53,
    0xde, 0x00, 0x00, 0x00, 0x0c, 0x49, 0x44, 0x41, 0x54, 0x78, 0x9c, 0x63, 0x60, 0x60, 0x60, 0x00,
    0x00, 0x00, 0x04, 0x00, 0x01, 0xf6, 0x17, 0x38, 0x55, 0x00, 0x00, 0x00, 0x00, 0x49, 0x45, 0x4e,
    0x44, 0xae, 0x42, 0x60, 0x82,
];

/// The endpoint family.
pub struct ImagesGenerations;

/// One image of a reply: its text, or an address that holds it.
pub open spec fn image_item(as_url: bool) -> Tree {
    if as_url {
        Tree::Obj(
            map!["url"@ => Tree::Str("data:image/png;base64,"@ + handlers::base64(PNG_1X1@))],
        )
    } else {
        Tree::Obj(map!["b64_json"@ => Tree::Str(handlers::base64(PNG_1X1@))])
    }
}

/// How many images a request asks for: at least one.
pub open spec fn image_count(body: Tree) -> u64 {
    let n = responses::number_or(body.u64_at("n"@), 1);
    if n == 0 {
        1
    } else {
        n
    }
}

/// The reply: as many images as were asked for, in the format that was asked for.
pub open spec fn images_tree(body: Tree) -> Tree {
    let item = image_item(body.str_at("response_format"@) == Some("url"@));
    Tree::Obj(
        map![
            "created"@ => json::num(0),
            "data"@ => Tree::Arr(Seq::new(image_count(body) as nat, |i: int| item)),
        ],
    )
}

impl Handler for ImagesGenerations {
    open spec fn serves(&self, method: Seq<char>, path: Seq<char>) -> bool {
        method == "POST"@ && path == IMAGES_PATH@
    }

    open spec fn advertised(&self) -> Seq<Seq<char>> {
        seq!["POST /v1/images/generations"@]
    }

    open spec fn handled(&self, s: StateModel, req: RequestModel, path: Seq<char>) -> (
        StateModel,
        ActionModel,
    ) {
        (s, handlers::at_once(response::json_reply(200, images_tree(req.body))))
    }

    fn matches(&self, method: &str, path: &str) -> (r: bool) {
        same(method, "POST") && same(path, IMAGES_PATH)
    }

    fn handle(&self, state: &mut State, req: &ParsedRequest, path: &str) -> (r: Action) {
        let mut n: u64 = match req.body.u64_at("n") {
            Some(n) => n,
            None => 1,
        };
        if n == 0 {
            n = 1;
        }
        let as_url = match req.body.str_at("response_format") {
            Some(f) => same(f, "url"),
            None => false,
        };
        let encoded = b64(&PNG_1X1);
        let item = if as_url {
            let mut url = "data:image/png;base64,".to_owned();
            url.append(encoded.as_str());
            Members::new().with("url", Json::Str(url)).done()
        } else {
            Members::new().with("b64_json", Json::Str(encoded)).done()
        };
        let mut data: Vec<Json> = Vec::new();
        let mut i: u64 = 0;
        while i < n
            invariant
                i <= n,
                data@.len() == i,
                forall|j: int| 0 <= j < i ==> json::tree(#[trigger] data@[j]) == item@,
            decreases n - i,
        {
            data.push(item.copy());
            i += 1;
        }
        proof {
            json::lemma_trees(data@);
            assert(json::trees(data@) =~= Seq::new(
                image_count(req.body@) as nat,
                |i: int| item@,
            ));
        }
        let body = Members::new().with("created", Json::number(0)).with(
            "data",
            Json::Arr(data),
        ).done();
        respond(HttpResponse::json(200, &body))
    }

    fn routes(&self) -> (r: &'static [&'static str]) {
        let r: &'static [&'static str] = &["POST /v1/images/generations"];
        assert(handlers::line_texts(r@) =~= self.advertised());
        r
    }
}

} // verus!
