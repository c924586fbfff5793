//! Which handler a request goes to, by its method and path.

use vstd::prelude::*;
use vstd::string::StringSliceAdditionalSpecFns;

verus! {

/// Whether `a` and `b` hold the same bytes.
pub fn same_bytes(a: &[u8], b: &[u8]) -> (r: bool)
    ensures
        r == (a@ == b@),
{
    if a.len() != b.len() {
        return false;
    }
    let mut i: usize = 0;
    while i < a.len()
        invariant
            a@.len() == b@.len(),
            i <= a@.len(),
            forall|k: int| 0 <= k < i ==> a@[k] == b@[k],
        decreases a@.len() - i,
    {
        if a[i] != b[i] {
            return false;
        }
        i = i + 1;
    }
    proof {
        assert(a@ =~= b@);
    }
    true
}

/// The pages and actions of the feeds section.
#[derive(Copy, Clone, PartialEq, Eq, Debug)]
pub enum FeedsEndpoint {
    Index,
    Entries,
    Insert,
    Delete,
}

/// The feeds endpoint that a method and path name.
pub open spec fn spec_feeds_endpoint(method: Seq<u8>, path: Seq<u8>) -> Option<FeedsEndpoint> {
    if method == "GET".spec_bytes() && path == "/feeds".spec_bytes() {
        Some(FeedsEndpoint::Index)
    } else if method == "GET".spec_bytes() && path == "/feeds/entries".spec_bytes() {
        Some(FeedsEndpoint::Entries)
    } else if method == "POST".spec_bytes() && path == "/feeds/insert".spec_bytes() {
        Some(FeedsEndpoint::Insert)
    } else if method == "POST".spec_bytes() && path == "/feeds/delete".spec_bytes() {
        Some(FeedsEndpoint::Delete)
    } else {
        None
    }
}

impl FeedsEndpoint {
    /// The endpoint that a request's method and path name, if any.
    pub fn get(resource: (&[u8], &[u8])) -> (r: Option<Self>)
        ensures
            r == spec_feeds_endpoint(resource.0@, resource.1@),
    {
        let (method, path) = resource;
        let get = same_bytes(method, "GET".as_bytes());
        let post = same_bytes(method, "POST".as_bytes());
        if get && same_bytes(path, "/feeds".as_bytes()) {
            Some(FeedsEndpoint::Index)
        } else if get && same_bytes(path, "/feeds/entries".as_bytes()) {
            Some(FeedsEndpoint::Entries)
        } else if post && same_bytes(path, "/feeds/insert".as_bytes()) {
            Some(FeedsEndpoint::Insert)
        } else if post && same_bytes(path, "/feeds/delete".as_bytes()) {
            Some(FeedsEndpoint::Delete)
        } else {
            None
        }
    }
}

/// The pages and actions of the web interface.
#[derive(Copy, Clone, PartialEq, Eq, Debug)]
pub enum Route {
    GeneralIndex,
    GeneralStyles,
    GeneralScripts,
    FilesIndex,
    FilesEntries,
    FilesPlay,
    FilesMark,
    FilesFolder,
    FilesDelete,
    WatchlistIndex,
    WatchlistEntries,
    WatchlistInsert,
    WatchlistUpdate,
    WatchlistDelete,
    RulesIndex,
    RulesEntries,
    RulesInsert,
    RulesUpdate,
    RulesDelete,
    FeedsIndex,
    FeedsEntries,
    FeedsInsert,
    FeedsDelete,
    MobileIndex,
    MobileStyles,
}

impl Route {
    /// The method and path, separated by a space, that lead to the route.
    pub open spec fn text(self) -> &'static str {
        match self {
            Route::GeneralIndex => "GET /",
            Route::GeneralStyles => "GET /styles.css",
            Route::GeneralScripts => "GET /scripts.js",
            Route::FilesIndex => "GET /files",
            Route::FilesEntries => "GET /files/entries",
            Route::FilesPlay => "POST /files/play",
            Route::FilesMark => "POST /files/mark",
            Route::FilesFolder => "POST /files/folder",
            Route::FilesDelete => "POST /files/delete",
            Route::WatchlistIndex => "GET /watchlist",
            Route::WatchlistEntries => "GET /watchlist/entries",
            Route::WatchlistInsert => "POST /watchlist/insert",
            Route::WatchlistUpdate => "POST /watchlist/update",
            Route::WatchlistDelete => "POST /watchlist/delete",
            Route::RulesIndex => "GET /rules",
            Route::RulesEntries => "GET /rules/entries",
            Route::RulesInsert => "POST /rules/insert",
            Route::RulesUpdate => "POST /rules/update",
            Route::RulesDelete => "POST /rules/delete",
            Route::FeedsIndex => "GET /feeds",
            Route::FeedsEntries => "GET /feeds/entries",
            Route::FeedsInsert => "POST /feeds/insert",
            Route::FeedsDelete => "POST /feeds/delete",
            Route::MobileIndex => "GET /mobile",
            Route::MobileStyles => "GET /mobile/styles.css",
        }
    }

    /// The method and path of the route, as bytes.
    pub fn as_bytes(self) -> (r: &'static [u8])
        ensures
            r@ == self.text().spec_bytes(),
    {
        match self {
            Route::GeneralIndex => "GET /".as_bytes(),
            Route::GeneralStyles => "GET /styles.css".as_bytes(),
            Route::GeneralScripts => "GET /scripts.js".as_bytes(),
            Route::FilesIndex => "GET /files".as_bytes(),
            Route::FilesEntries => "GET /files/entries".as_bytes(),
            Route::FilesPlay => "POST /files/play".as_bytes(),
            Route::FilesMark => "POST /files/mark".as_bytes(),
            Route::FilesFolder => "POST /files/folder".as_bytes(),
            Route::FilesDelete => "POST /files/delete".as_bytes(),
            Route::WatchlistIndex => "GET /watchlist".as_bytes(),
            Route::WatchlistEntries => "GET /watchlist/entries".as_bytes(),
            Route::WatchlistInsert => "POST /watchlist/insert".as_bytes(),
            Route::WatchlistUpdate => "POST /watchlist/update".as_bytes(),
            Route::WatchlistDelete => "POST /watchlist/delete".as_bytes(),
            Route::RulesIndex => "GET /rules".as_bytes(),
            Route::RulesEntries => "GET /rules/entries".as_bytes(),
            Route::RulesInsert => "POST /rules/insert".as_bytes(),
            Route::RulesUpdate => "POST /rules/update".as_bytes(),
            Route::RulesDelete => "POST /rules/delete".as_bytes(),
            Route::FeedsIndex => "GET /feeds".as_bytes(),
            Route::FeedsEntries => "GET /feeds/entries".as_bytes(),
            Route::FeedsInsert => "POST /feeds/insert".as_bytes(),
            Route::FeedsDelete => "POST /feeds/delete".as_bytes(),
            Route::MobileIndex => "GET /mobile".as_bytes(),
            Route::MobileStyles => "GET /mobile/styles.css".as_bytes(),
        }
    }

    /// Every route, in the order they are tried.
    pub fn all() -> (r: Vec<Route>)
        ensures
            r@.len() == 25,
            forall|x: Route| r@.contains(x),
    {
        let r = vec![
            Route::GeneralIndex, Route::GeneralStyles, Route::GeneralScripts,
            Route::FilesIndex, Route::FilesEntries, Route::FilesPlay, Route::FilesMark,
            Route::FilesFolder, Route::FilesDelete,
            Route::WatchlistIndex, Route::WatchlistEntries, Route::WatchlistInsert,
            Route::WatchlistUpdate, Route::WatchlistDelete,
            Route::RulesIndex, Route::RulesEntries, Route::RulesInsert, Route::RulesUpdate,
            Route::RulesDelete,
            Route::FeedsIndex, Route::FeedsEntries, Route::FeedsInsert, Route::FeedsDelete,
            Route::MobileIndex, Route::MobileStyles,
        ];
        proof {
            assert forall|x: Route| r@.contains(x) by {
                match x {
                    Route::GeneralIndex => assert(r@[0] == x),
                    Route::GeneralStyles => assert(r@[1] == x),
                    Route::GeneralScripts => assert(r@[2] == x),
                    Route::FilesIndex => assert(r@[3] == x),
                    Route::FilesEntries => assert(r@[4] == x),
                    Route::FilesPlay => assert(r@[5] == x),
                    Route::FilesMark => assert(r@[6] == x),
                    Route::FilesFolder => assert(r@[7] == x),
                    Route::FilesDelete => assert(r@[8] == x),
                    Route::WatchlistIndex => assert(r@[9] == x),
                    Route::WatchlistEntries => assert(r@[10] == x),
                    Route::WatchlistInsert => assert(r@[11] == x),
                    Route::WatchlistUpdate => assert(r@[12] == x),
                    Route::WatchlistDelete => assert(r@[13] == x),
                    Route::RulesIndex => assert(r@[14] == x),
                    Route::RulesEntries => assert(r@[15] == x),
                    Route::RulesInsert => assert(r@[16] == x),
                    Route::RulesUpdate => assert(r@[17] == x),
                    Route::RulesDelete => assert(r@[18] == x),
                    Route::FeedsIndex => assert(r@[19] == x),
                    Route::FeedsEntries => assert(r@[20] == x),
                    Route::FeedsInsert => assert(r@[21] == x),
                    Route::FeedsDelete => assert(r@[22] == x),
                    Route::MobileIndex => assert(r@[23] == x),
                    Route::MobileStyles => assert(r@[24] == x),
                }
            }
        }
        r
    }

    /// The route that a request's method and path (separated by a space)
    /// lead to; `None` when no route has them.
    pub fn get(endpoint: &[u8]) -> (r: Option<Route>)
        ensures
            r matches Some(x) ==> x.text().spec_bytes() == endpoint@,
            r is None ==> forall|x: Route| x.text().spec_bytes() != endpoint@,
    {
        let routes = Route::all();
        let mut i: usize = 0;
        while i < routes.len()
            invariant
                i <= routes@.len(),
                forall|x: Route| routes@.contains(x),
                forall|k: int| 0 <= k < i ==> (#[trigger] routes@[k]).text().spec_bytes() != endpoint@,
            decreases routes@.len() - i,
        {
            let route = routes[i];
            if same_bytes(endpoint, route.as_bytes()) {
                return Some(route);
            }
            i = i + 1;
        }
        proof {
            assert forall|x: Route| x.text().spec_bytes() != endpoint@ by {
                assert(routes@.contains(x));
                let k = choose|k: int| 0 <= k < routes@.len() && routes@[k] == x;
                assert(routes@[k].text().spec_bytes() != endpoint@);
            }
        }
        None
    }
}

} // verus!

verus! {

/// A few characters of a text, enough to tell the routes apart.
pub open spec fn text_signature(s: Seq<char>) -> (nat, char, char, char, char) {
    (
        s.len(),
        if 5 < s.len() { s[5] } else { '#' },
        if 7 < s.len() { s[7] } else { '#' },
        if 12 < s.len() { s[12] } else { '#' },
        if 16 < s.len() { s[16] } else { '#' },
    )
}

impl Route {
    /// The signature of the route's text.
    pub open spec fn signature(self) -> (nat, char, char, char, char) {
        match self {
            Route::GeneralIndex => (5nat, '#', '#', '#', '#'),
            Route::GeneralStyles => (15nat, 's', 'y', 'c', '#'),
            Route::GeneralScripts => (15nat, 's', 'r', '.', '#'),
            Route::FilesIndex => (10nat, 'f', 'l', '#', '#'),
            Route::FilesEntries => (18nat, 'f', 'l', 'n', 'e'),
            Route::FilesPlay => (16nat, '/', 'i', 'p', '#'),
            Route::FilesMark => (16nat, '/', 'i', 'm', '#'),
            Route::FilesFolder => (18nat, '/', 'i', 'f', 'e'),
            Route::FilesDelete => (18nat, '/', 'i', 'd', 't'),
            Route::WatchlistIndex => (14nat, 'w', 't', 's', '#'),
            Route::WatchlistEntries => (22nat, 'w', 't', 's', 'n'),
            Route::WatchlistInsert => (22nat, '/', 'a', 'i', 'i'),
            Route::WatchlistUpdate => (22nat, '/', 'a', 'i', 'u'),
            Route::WatchlistDelete => (22nat, '/', 'a', 'i', 'd'),
            Route::RulesIndex => (10nat, 'r', 'l', '#', '#'),
            Route::RulesEntries => (18nat, 'r', 'l', 'n', 'e'),
            Route::RulesInsert => (18nat, '/', 'u', 'i', 'r'),
            Route::RulesUpdate => (18nat, '/', 'u', 'u', 't'),
            Route::RulesDelete => (18nat, '/', 'u', 'd', 't'),
            Route::FeedsIndex => (10nat, 'f', 'e', '#', '#'),
            Route::FeedsEntries => (18nat, 'f', 'e', 'n', 'e'),
            Route::FeedsInsert => (18nat, '/', 'e', 'i', 'r'),
            Route::FeedsDelete => (18nat, '/', 'e', 'd', 't'),
            Route::MobileIndex => (11nat, 'm', 'b', '#', '#'),
            Route::MobileStyles => (22nat, 'm', 'b', 's', 'e'),
        }
    }
}

proof fn lemma_route_signature(x: Route)
    ensures
        text_signature(x.text()@) == x.signature(),
{
    reveal_strlit("GET /");
    reveal_strlit("GET /styles.css");
    reveal_strlit("GET /scripts.js");
    reveal_strlit("GET /files");
    reveal_strlit("GET /files/entries");
    reveal_strlit("POST /files/play");
    reveal_strlit("POST /files/mark");
    reveal_strlit("POST /files/folder");
    reveal_strlit("POST /files/delete");
    reveal_strlit("GET /watchlist");
    reveal_strlit("GET /watchlist/entries");
    reveal_strlit("POST /watchlist/insert");
    reveal_strlit("POST /watchlist/update");
    reveal_strlit("POST /watchlist/delete");
    reveal_strlit("GET /rules");
    reveal_strlit("GET /rules/entries");
    reveal_strlit("POST /rules/insert");
    reveal_strlit("POST /rules/update");
    reveal_strlit("POST /rules/delete");
    reveal_strlit("GET /feeds");
    reveal_strlit("GET /feeds/entries");
    reveal_strlit("POST /feeds/insert");
    reveal_strlit("POST /feeds/delete");
    reveal_strlit("GET /mobile");
    reveal_strlit("GET /mobile/styles.css");
}

/// No two routes share a method and path, so each route is found by its
/// own text.
pub proof fn law_route_texts_are_distinct(x: Route, y: Route)
    requires
        x != y,
    ensures
        x.text().spec_bytes() != y.text().spec_bytes(),
{
    lemma_route_signature(x);
    lemma_route_signature(y);
    assert(x.text()@ != y.text()@);
    vstd::utf8::encode_utf8_decode_utf8(x.text()@);
    vstd::utf8::encode_utf8_decode_utf8(y.text()@);
}

/// Every route is found by its own text.
pub proof fn law_route_found_by_its_text(x: Route, y: Route)
    requires
        y.text().spec_bytes() == x.text().spec_bytes(),
    ensures
        y == x,
{
    if y != x {
        law_route_texts_are_distinct(x, y);
    }
}

} // verus!
