//! What the web host says of a room, and how its numbers become items.

use vstd::prelude::*;
use vstd::string::StringExecFns;

use crate::istr::Istr;
use crate::text::{decimal, joined, str_eq};

verus! {

broadcast use vstd::string::group_string_axioms;

/// The names and ids of a game's items and locations, in the order in which
/// they were read.
#[derive(Debug)]
pub struct GameData {
    pub item_name_to_id: Vec<(Istr, i64)>,
    pub location_name_to_id: Vec<(Istr, i64)>,
    pub checksum: String,
}

/// What is known of a data package before it is loaded.
#[derive(Debug)]
pub struct PartialGameData {
    pub checksum: String,
}

/// The state of a room.
#[derive(Debug)]
pub struct RoomStatus {
    pub last_port: u16,
    pub tracker: String,
    /// The name and the game of each player; the server is not among them.
    pub players: Vec<(Istr, Istr)>,
}

/// The data packages of a room.
#[derive(Debug)]
pub struct StaticTracker {
    pub datapackage: Vec<(Istr, PartialGameData)>,
}

/// What one player has received.
#[derive(Debug)]
pub struct PlayerItemsReceived {
    pub player: u32,
    /// Item, location, sender, flags.
    pub items: Vec<(i64, i64, u32, u8)>,
}

/// What all players have received.
#[derive(Debug)]
pub struct Tracker {
    pub player_items_received: Vec<PlayerItemsReceived>,
}

/// The quoted and escaped form of a text, as the standard library prints it for
/// debugging.
pub uninterp spec fn quoted(text: Seq<char>) -> Seq<char>;

/// The `Debug` form of a string slice: a function of the text alone.
#[verifier::external_body]
pub(crate) fn quote(text: &str) -> (r: String)
    ensures
        r@ == quoted(text@),
{
    format!("{:?}", text)
}

/// What `url::Url` makes of an address: scheme, authority and path segments, or
/// the message of its error.
pub uninterp spec fn parsed_url(address: Seq<char>) -> Result<
    (Seq<char>, Seq<char>, Option<Seq<Seq<char>>>),
    Seq<char>,
>;

/// The authority of an address after its scheme and its port were replaced, as
/// `url::Url` computes it.
pub uninterp spec fn authority_with(address: Seq<char>, scheme: Seq<char>, port: u16) -> Seq<char>;

/// The parts of an address.
#[derive(Debug, Clone)]
pub struct UrlParts {
    pub scheme: String,
    pub authority: String,
    pub segments: Option<Vec<String>>,
}

/// What the parts of an address say.
pub open spec fn parts_view(parts: UrlParts) -> (Seq<char>, Seq<char>, Option<Seq<Seq<char>>>) {
    (
        parts.scheme@,
        parts.authority@,
        match parts.segments {
            Some(list) => Some(crate::data::texts(list@)),
            None => None,
        },
    )
}

/// A number of slashes.
pub open spec fn slashes(n: nat) -> Seq<char> {
    Seq::new(n, |i: int| '/')
}

/// A number of empty texts.
pub open spec fn empty_texts(n: nat) -> Seq<Seq<char>> {
    Seq::new(n, |i: int| Seq::<char>::empty())
}

/// Whether what is written behind an address goes on with its path: there is
/// neither a query nor a fragment, nor a space or control character at the end,
/// which would be left out of the address only as long as it is the last.
pub open spec fn ends_in_path(address: Seq<char>) -> bool {
    &&& address.len() > 0
    &&& address.last() as int > ' ' as int
    &&& !address.contains('?')
    &&& !address.contains('#')
}

/// Whether `longer` are the parts of an address with up to `n` empty segments
/// more at the end of its path.
pub open spec fn same_but_empty_segments(
    parts: (Seq<char>, Seq<char>, Option<Seq<Seq<char>>>),
    longer: (Seq<char>, Seq<char>, Option<Seq<Seq<char>>>),
    n: nat,
) -> bool {
    &&& longer.0 == parts.0
    &&& longer.1 == parts.1
    &&& parts.2 is Some
    &&& longer.2 is Some
    &&& exists|m: nat| #![trigger empty_texts(m)]
        m <= n && longer.2->Some_0 == parts.2->Some_0 + empty_texts(m)
}

/// `url::Url::parse`, with the parts of the result that are read: a function of
/// the address alone. An error is turned into its message. In an address of the
/// web that ends in its path, further slashes add nothing but empty segments to
/// the path, and not always one each: the first may only close a segment that
/// the parser closes by itself, such as an empty path or a dot segment.
#[verifier::external_body]
fn url_parts(address: &str) -> (r: Result<UrlParts, String>)
    ensures
        match parsed_url(address@) {
            Ok(parts) => r is Ok && parts_view(r->Ok_0) == parts,
            Err(message) => r is Err && r->Err_0@ == message,
        },
        r is Ok && (r->Ok_0.scheme@ == "http"@ || r->Ok_0.scheme@ == "https"@) && ends_in_path(
            address@,
        ) ==> forall|n: nat| #![trigger slashes(n)]
            parsed_url(address@ + slashes(n)) is Ok && same_but_empty_segments(
                parts_view(r->Ok_0),
                parsed_url(address@ + slashes(n))->Ok_0,
                n,
            ),
{
    let url = url::Url::parse(address).map_err(|err| err.to_string())?;
    Ok(
        UrlParts {
            scheme: url.scheme().to_owned(),
            authority: url.authority().to_owned(),
            segments: url.path_segments().map(|list| list.map(str::to_owned).collect()),
        },
    )
}

/// Whether a text ends in another.
pub open spec fn ends_in(text: Seq<char>, end: Seq<char>) -> bool {
    end.len() <= text.len() && text.skip(text.len() - end.len()) == end
}

/// Whether a port goes without saying for a scheme of web sockets.
pub open spec fn implied_port(scheme: Seq<char>, port: u16) -> bool {
    scheme == "ws"@ && port == 80 || scheme == "wss"@ && port == 443
}

/// `set_scheme` and `set_port` of a parsed `url::Url`, and then its
/// `authority`: a function of the address, the scheme and the port. For an
/// address of the web, a scheme of web sockets and a port that does not go
/// without saying, the authority ends in the port. An error of the parser is
/// turned into its message.
#[verifier::external_body]
fn url_authority_with(address: &str, scheme: &str, port: u16) -> (r: Result<String, String>)
    ensures
        match parsed_url(address@) {
            Ok(parts) => {
                &&& r is Ok
                &&& r->Ok_0@ == authority_with(address@, scheme@, port)
                &&& (parts.0 == "http"@ || parts.0 == "https"@) && (scheme@ == "ws"@ || scheme@
                    == "wss"@) && !implied_port(scheme@, port) ==> ends_in(
                    r->Ok_0@,
                    ":"@ + decimal(port as nat),
                )
            },
            Err(message) => r is Err && r->Err_0@ == message,
        },
{
    let mut url = url::Url::parse(address).map_err(|err| err.to_string())?;
    _ = url.set_scheme(scheme);
    _ = url.set_port(Some(port));
    Ok(url.authority().to_owned())
}

/// The room that an address leads to.
#[derive(Debug, Clone)]
pub struct RoomAddress {
    /// The address itself.
    pub url: String,
    pub scheme: String,
    pub host: String,
    pub room_id: String,
}

/// The last text that is not empty.
pub open spec fn last_nonempty(list: Seq<Seq<char>>) -> Option<Seq<char>>
    decreases list.len(),
{
    if list.len() == 0 {
        None
    } else if list.last().len() > 0 {
        Some(list.last())
    } else {
        last_nonempty(list.drop_last())
    }
}

/// The scheme, the host and the room id of an address with the given parts, or
/// why it is not the address of a room.
pub open spec fn room_of(
    parts: (Seq<char>, Seq<char>, Option<Seq<Seq<char>>>),
) -> Result<(Seq<char>, Seq<char>, Seq<char>), Seq<char>> {
    if parts.0 != "http"@ && parts.0 != "https"@ {
        Err("bad address scheme "@ + quoted(parts.0))
    } else if parts.1.len() == 0 {
        Err("address has no host"@)
    } else {
        match parts.2 {
            Some(list) => match last_nonempty(list) {
                Some(id) => Ok((parts.0, parts.1, id)),
                None => Err("address has no path"@),
            },
            None => Err("address has no path"@),
        }
    }
}

/// What an address leads to, or why it does not lead to a room.
pub open spec fn room_at(address: Seq<char>) -> Result<
    (Seq<char>, Seq<char>, Seq<char>),
    Seq<char>,
> {
    match parsed_url(address) {
        Ok(parts) => room_of(parts),
        Err(message) => Err(message),
    }
}

/// Empty texts at the end do not change the last text that is not empty.
proof fn lemma_empty_texts_skipped(list: Seq<Seq<char>>, m: nat)
    ensures
        last_nonempty(list + empty_texts(m)) == last_nonempty(list),
    decreases m,
{
    let longer = list + empty_texts(m);
    if m == 0 {
        assert(longer =~= list);
    } else {
        assert(longer.last() == empty_texts(m)[m - 1]);
        assert(longer.drop_last() =~= list + empty_texts((m - 1) as nat));
        lemma_empty_texts_skipped(list, (m - 1) as nat);
    }
}

/// Slashes at the end of the path make no difference: the room is the same, and
/// so is the complaint where there is none.
pub proof fn law_trailing_slashes_trimmed(
    parts: (Seq<char>, Seq<char>, Option<Seq<Seq<char>>>),
    longer: (Seq<char>, Seq<char>, Option<Seq<Seq<char>>>),
    n: nat,
)
    requires
        same_but_empty_segments(parts, longer, n),
    ensures
        room_of(longer) == room_of(parts),
{
    let m = choose|m: nat| #![trigger empty_texts(m)]
        m <= n && longer.2->Some_0 == parts.2->Some_0 + empty_texts(m);
    lemma_empty_texts_skipped(parts.2->Some_0, m);
}

fn last_segment(list: &Vec<String>) -> (r: Option<String>)
    ensures
        match last_nonempty(crate::data::texts(list@)) {
            Some(text) => r is Some && r->Some_0@ == text,
            None => r is None,
        },
{
    let mut n: usize = list.len();
    let ghost all = crate::data::texts(list@);
    assert(all.take(n as int) =~= all);
    while n > 0
        invariant
            n <= list@.len(),
            all == crate::data::texts(list@),
            last_nonempty(all) == last_nonempty(all.take(n as int)),
        decreases n,
    {
        assert(all.take(n as int).drop_last() =~= all.take(n - 1));
        assert(all[n - 1] == list@[n - 1]@);
        if !list[n - 1].as_str().is_empty() {
            return Some(list[n - 1].clone());
        }
        n -= 1;
    }
    None
}

/// Reads the parts of an address as the address of a room.
pub fn room_address(url: &str, parts: UrlParts) -> (r: Result<RoomAddress, String>)
    ensures
        match room_of(parts_view(parts)) {
            Ok(room) => {
                &&& r is Ok
                &&& r->Ok_0.url@ == url@
                &&& r->Ok_0.scheme@ == room.0
                &&& r->Ok_0.host@ == room.1
                &&& r->Ok_0.room_id@ == room.2
            },
            Err(message) => r is Err && r->Err_0@ == message,
        },
{
    if !str_eq(parts.scheme.as_str(), "http") && !str_eq(parts.scheme.as_str(), "https") {
        let shown = quote(parts.scheme.as_str());
        return Err(joined("bad address scheme ", shown.as_str()));
    }
    if parts.authority.as_str().is_empty() {
        return Err("address has no host".to_owned());
    }
    let id = match &parts.segments {
        Some(list) => last_segment(list),
        None => None,
    };
    match id {
        Some(room_id) => Ok(
            RoomAddress {
                url: url.to_owned(),
                scheme: parts.scheme,
                host: parts.authority,
                room_id,
            },
        ),
        None => Err("address has no path".to_owned()),
    }
}

/// The address of a service of the web host.
pub open spec fn api_address(
    scheme: Seq<char>,
    host: Seq<char>,
    service: Seq<char>,
    id: Seq<char>,
) -> Seq<char> {
    scheme + "://"@ + host + "/api/"@ + service + "/"@ + id
}

impl RoomAddress {
    /// Reads an address. Slashes at the end of its path make no difference.
    pub fn parse(address: &str) -> (r: Result<Self, String>)
        ensures
            match room_at(address@) {
                Ok(room) => {
                    &&& r is Ok
                    &&& r->Ok_0.url@ == address@
                    &&& r->Ok_0.scheme@ == room.0
                    &&& r->Ok_0.host@ == room.1
                    &&& r->Ok_0.room_id@ == room.2
                },
                Err(message) => r is Err && r->Err_0@ == message,
            },
            r is Ok && ends_in_path(address@) ==> forall|n: nat| #![trigger slashes(n)]
                room_at(address@ + slashes(n)) == room_at(address@),
    {
        match url_parts(address) {
            Ok(parts) => {
                proof {
                    let here = parts_view(parts);
                    if room_of(here) is Ok && ends_in_path(address@) {
                        assert forall|n: nat| #![trigger slashes(n)] room_at(
                            address@ + slashes(n),
                        ) == room_at(address@) by {
                            let longer = parsed_url(address@ + slashes(n))->Ok_0;
                            law_trailing_slashes_trimmed(here, longer, n);
                        }
                    }
                }
                room_address(address, parts)
            },
            Err(message) => Err(message),
        }
    }

    /// The address of a service of the web host.
    pub fn api_url(&self, service: &str, id: &str) -> (r: String)
        ensures
            r@ == api_address(self.scheme@, self.host@, service@, id@),
    {
        let mut out = self.scheme.clone();
        out.append("://");
        out.append(self.host.as_str());
        out.append("/api/");
        out.append(service);
        out.append("/");
        out.append(id);
        out
    }

    /// The scheme under which game clients reach the room. It is chosen so that
    /// the port never goes without saying.
    pub open spec fn client_scheme(port: u16) -> Seq<char> {
        if port == 80 {
            "wss"@
        } else {
            "ws"@
        }
    }

    /// The address that game clients use: the authority of the room's address
    /// with the port at which the room listens. The port is always shown.
    pub fn client_address(&self, last_port: u16) -> (r: Result<String, String>)
        ensures
            match parsed_url(self.url@) {
                Ok(_) => r is Ok && r->Ok_0@ == authority_with(
                    self.url@,
                    RoomAddress::client_scheme(last_port),
                    last_port,
                ),
                Err(message) => r is Err && r->Err_0@ == message,
            },
            room_at(self.url@) is Ok ==> r is Ok && ends_in(
                r->Ok_0@,
                ":"@ + decimal(last_port as nat),
            ),
    {
        proof {
            reveal_strlit("ws");
            reveal_strlit("wss");
        }
        let scheme = if last_port == 80 {
            "wss"
        } else {
            "ws"
        };
        assert("ws"@.len() != "wss"@.len());
        url_authority_with(self.url.as_str(), scheme, last_port)
    }
}

proof fn lemma_last_nonempty(list: Seq<Seq<char>>)
    ensures
        match last_nonempty(list) {
            Some(text) => text.len() > 0 && exists|i: int|
                0 <= i < list.len() && #[trigger] list[i] == text && forall|j: int|
                    i < j < list.len() ==> (#[trigger] list[j]).len() == 0,
            None => forall|i: int| 0 <= i < list.len() ==> (#[trigger] list[i]).len() == 0,
        },
    decreases list.len(),
{
    if list.len() > 0 {
        let rest = list.drop_last();
        let last = list.len() - 1;
        lemma_last_nonempty(rest);
        if list[last].len() > 0 {
            assert(list[last] == list.last());
        } else {
            match last_nonempty(rest) {
                Some(text) => {
                    let i = choose|i: int|
                        0 <= i < rest.len() && #[trigger] rest[i] == text && forall|j: int|
                            i < j < rest.len() ==> (#[trigger] rest[j]).len() == 0;
                    assert(list[i] == text);
                    assert forall|j: int| i < j < list.len() implies (#[trigger] list[j]).len()
                        == 0 by {
                        if j < last {
                            assert(rest[j] == list[j]);
                        }
                    }
                },
                None => {
                    assert forall|i: int| 0 <= i < list.len() implies (#[trigger] list[i]).len()
                        == 0 by {
                        if i < last {
                            assert(rest[i] == list[i]);
                        }
                    }
                },
            }
        }
    }
}

/// An address leads to a room where it is one of the web, has a host, and has a
/// segment that is not empty. The last such segment is the room's id; host and
/// scheme are those of the address.
pub proof fn law_room_is_the_last_segment(
    url: &str,
    parts: UrlParts,
    r: Result<RoomAddress, String>,
)
    requires
        call_ensures(room_address, (url, parts), r),
    ensures
        match r {
            Ok(room) => {
                &&& room.url@ == url@
                &&& room.scheme@ == parts.scheme@
                &&& room.scheme@ == "http"@ || room.scheme@ == "https"@
                &&& room.host@ == parts.authority@
                &&& room.host@.len() > 0
                &&& room.room_id@.len() > 0
                &&& parts.segments is Some
                &&& exists|i: int|
                    0 <= i < parts.segments->Some_0@.len() && (
                    #[trigger] parts.segments->Some_0@[i])@ == room.room_id@ && forall|j: int|
                        i < j < parts.segments->Some_0@.len() ==> (
                        #[trigger] parts.segments->Some_0@[j])@.len() == 0
            },
            Err(text) => if parts.scheme@ != "http"@ && parts.scheme@ != "https"@ {
                text@ == "bad address scheme "@ + quoted(parts.scheme@)
            } else if parts.authority@.len() == 0 {
                text@ == "address has no host"@
            } else {
                &&& text@ == "address has no path"@
                &&& parts.segments is Some ==> forall|i: int|
                    0 <= i < parts.segments->Some_0@.len() ==> (
                    #[trigger] parts.segments->Some_0@[i])@.len() == 0
            },
        },
{
    if parts.segments is Some {
        let own = parts.segments->Some_0@;
        let list = crate::data::texts(own);
        lemma_last_nonempty(list);
        match last_nonempty(list) {
            Some(text) => {
                let i = choose|i: int|
                    0 <= i < list.len() && #[trigger] list[i] == text && forall|j: int|
                        i < j < list.len() ==> (#[trigger] list[j]).len() == 0;
                assert(own[i]@ == text);
                assert forall|j: int| i < j < own.len() implies (#[trigger] own[j])@.len() == 0 by {
                    assert(list[j] == own[j]@);
                }
            },
            None => {
                assert forall|j: int| 0 <= j < own.len() implies (#[trigger] own[j])@.len() == 0 by {
                    assert(list[j] == own[j]@);
                }
            },
        }
    }
}

/// To read an address is to read its parts.
pub proof fn law_address_read_by_its_parts(
    address: &str,
    parts: UrlParts,
    whole: Result<RoomAddress, String>,
    by_parts: Result<RoomAddress, String>,
)
    requires
        call_ensures(RoomAddress::parse, (address,), whole),
        call_ensures(room_address, (address, parts), by_parts),
    ensures
        match parsed_url(address@) {
            Err(message) => whole is Err && whole->Err_0@ == message,
            Ok(found) => found.0 == parts.scheme@ && found.1 == parts.authority@ && found.2 == (
            match parts.segments {
                Some(list) => Some(list@.map_values(|s: String| s@)),
                None => None::<Seq<Seq<char>>>,
            }) ==> {
                &&& whole is Ok == by_parts is Ok
                &&& whole is Ok ==> whole->Ok_0.room_id@ == by_parts->Ok_0.room_id@
                    && whole->Ok_0.scheme@ == by_parts->Ok_0.scheme@ && whole->Ok_0.host@
                    == by_parts->Ok_0.host@ && whole->Ok_0.url@ == address@
                &&& whole is Err ==> whole->Err_0@ == by_parts->Err_0@
            },
        },
{
}

/// A service of the host has its own address for each of its objects: it starts
/// with the scheme and the host, and ends in the service and the object's id.
pub proof fn law_own_address_for_each_id(
    room: &RoomAddress,
    service: &str,
    id: &str,
    other: &str,
    a: String,
    b: String,
)
    requires
        call_ensures(RoomAddress::api_url, (room, service, id), a),
        call_ensures(RoomAddress::api_url, (room, service, other), b),
    ensures
        a@ == room.scheme@ + "://"@ + room.host@ + "/api/"@ + service@ + "/"@ + id@,
        (a@ == b@) == (id@ == other@),
{
    let front = room.scheme@ + "://"@ + room.host@ + "/api/"@ + service@ + "/"@;
    assert(a@ =~= front + id@);
    assert(b@ =~= front + other@);
    if a@ == b@ {
        assert(a@.skip(front.len() as int) =~= id@);
        assert(b@.skip(front.len() as int) =~= other@);
    }
}

/// The address of game clients is the one that the parser gives for the port that
/// is asked for, and shows that port.
pub proof fn law_client_address_has_the_port(
    room: &RoomAddress,
    port: u16,
    r: Result<String, String>,
)
    requires
        call_ensures(RoomAddress::client_address, (room, port), r),
    ensures
        room_at(room.url@) is Ok ==> {
            let end = ":"@ + decimal(port as nat);
            &&& r is Ok
            &&& r->Ok_0@ == authority_with(
                room.url@,
                if port == 80 {
                    "wss"@
                } else {
                    "ws"@
                },
                port,
            )
            &&& end.len() <= r->Ok_0@.len()
            &&& r->Ok_0@.skip(r->Ok_0@.len() - end.len()) == end
        },
{
}

} // verus!
