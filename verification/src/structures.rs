//! Entity model: immutable value types describing a server and its connected
//! clients at one poll tick, together with their mathematical views.

use vstd::prelude::*;

verus! {

/// Mathematical view of a [`Skin`].
#[verifier::ext_equal]
pub ghost struct SkinView {
    pub name: Option<Seq<char>>,
    pub color_body: Option<i64>,
    pub color_feet: Option<i64>,
}

/// Appearance of a client, carried through events untouched.
pub struct Skin {
    pub name: Option<String>,
    pub color_body: Option<i64>,
    pub color_feet: Option<i64>,
}

impl View for Skin {
    type V = SkinView;

    open spec fn view(&self) -> SkinView {
        SkinView {
            name: self.name.deep_view(),
            color_body: self.color_body,
            color_feet: self.color_feet,
        }
    }
}

impl DeepView for Skin {
    type V = SkinView;

    open spec fn deep_view(&self) -> SkinView {
        self.view()
    }
}

/// Mathematical view of a [`Client`].
#[verifier::ext_equal]
pub ghost struct ClientView {
    pub name: Option<Seq<char>>,
    pub clan: Option<Seq<char>>,
    pub country: Option<i64>,
    pub score: Option<i64>,
    pub afk: Option<bool>,
    pub team: Option<i64>,
    pub is_player: Option<bool>,
    pub skin: Option<SkinView>,
}

/// A client connected to a server. Identity is defined by `name` alone:
/// two clients with the same name are the same entity for diffing purposes,
/// whatever their other fields say.
pub struct Client {
    pub name: Option<String>,
    pub clan: Option<String>,
    pub country: Option<i64>,
    pub score: Option<i64>,
    pub afk: Option<bool>,
    pub team: Option<i64>,
    pub is_player: Option<bool>,
    pub skin: Option<Skin>,
}

impl View for Client {
    type V = ClientView;

    open spec fn view(&self) -> ClientView {
        ClientView {
            name: self.name.deep_view(),
            clan: self.clan.deep_view(),
            country: self.country,
            score: self.score,
            afk: self.afk,
            team: self.team,
            is_player: self.is_player,
            skin: self.skin.deep_view(),
        }
    }
}

impl DeepView for Client {
    type V = ClientView;

    open spec fn deep_view(&self) -> ClientView {
        self.view()
    }
}

/// The identity of a client: its name, or `None` for the distinct
/// anonymous identity.
pub open spec fn client_id(c: ClientView) -> Option<Seq<char>> {
    c.name
}

/// Equality of two optional strings by their character sequences.
pub fn opt_string_eq(a: &Option<String>, b: &Option<String>) -> (r: bool)
    ensures
        r == (a.deep_view() == b.deep_view()),
{
    match (a, b) {
        (Some(x), Some(y)) => *x == *y,
        (None, None) => true,
        _ => false,
    }
}

/// Copies an optional string.
pub fn clone_opt_string(s: &Option<String>) -> (r: Option<String>)
    ensures
        r == *s,
        r.deep_view() == s.deep_view(),
{
    match s {
        Some(x) => Some(x.clone()),
        None => None,
    }
}

impl Clone for Skin {
    fn clone(&self) -> (r: Self)
        ensures
            r == *self,
    {
        Skin {
            name: clone_opt_string(&self.name),
            color_body: self.color_body,
            color_feet: self.color_feet,
        }
    }
}

impl Clone for Client {
    fn clone(&self) -> (r: Self)
        ensures
            r == *self,
    {
        Client {
            name: clone_opt_string(&self.name),
            clan: clone_opt_string(&self.clan),
            country: self.country,
            score: self.score,
            afk: self.afk,
            team: self.team,
            is_player: self.is_player,
            skin: match &self.skin {
                Some(s) => Some(s.clone()),
                None => None,
            },
        }
    }
}

/// Copies a vector of strings.
pub fn clone_string_vec(v: &Vec<String>) -> (r: Vec<String>)
    ensures
        r@ == v@,
        r.deep_view() == v.deep_view(),
{
    let mut r: Vec<String> = Vec::new();
    let mut i: usize = 0;
    while i < v.len()
        invariant
            i <= v.len(),
            r@ =~= v@.take(i as int),
        decreases v.len() - i,
    {
        r.push(v[i].clone());
        i += 1;
    }
    proof {
        assert(v@.take(v@.len() as int) =~= v@);
        assert(r.deep_view() =~= v.deep_view());
    }
    r
}

/// Copies a vector of key/value string pairs.
pub fn clone_pair_vec(v: &Vec<(String, String)>) -> (r: Vec<(String, String)>)
    ensures
        r@ == v@,
        r.deep_view() == v.deep_view(),
{
    let mut r: Vec<(String, String)> = Vec::new();
    let mut i: usize = 0;
    while i < v.len()
        invariant
            i <= v.len(),
            r@ =~= v@.take(i as int),
        decreases v.len() - i,
    {
        r.push((v[i].0.clone(), v[i].1.clone()));
        i += 1;
    }
    proof {
        assert(v@.take(v@.len() as int) =~= v@);
        assert(r.deep_view() =~= v.deep_view());
    }
    r
}

/// Copies a vector of clients.
pub fn clone_client_vec(v: &Vec<Client>) -> (r: Vec<Client>)
    ensures
        r@ == v@,
        r.deep_view() == v.deep_view(),
{
    let mut r: Vec<Client> = Vec::new();
    let mut i: usize = 0;
    while i < v.len()
        invariant
            i <= v.len(),
            r@ =~= v@.take(i as int),
        decreases v.len() - i,
    {
        r.push(v[i].clone());
        i += 1;
    }
    proof {
        assert(v@.take(v@.len() as int) =~= v@);
        assert(r.deep_view() =~= v.deep_view());
    }
    r
}

/// Mathematical view of a [`MapInfo`].
#[verifier::ext_equal]
pub ghost struct MapInfoView {
    pub name: Option<Seq<char>>,
    pub sha256: Option<Seq<char>>,
    pub size: Option<i64>,
    pub other: Seq<(Seq<char>, Seq<char>)>,
}

/// Details of the map a server runs, carried through events untouched.
/// Unrecognized fields ride along in `other` as raw JSON text, keyed by
/// field name.
pub struct MapInfo {
    pub name: Option<String>,
    pub sha256: Option<String>,
    pub size: Option<i64>,
    pub other: Vec<(String, String)>,
}

impl View for MapInfo {
    type V = MapInfoView;

    open spec fn view(&self) -> MapInfoView {
        MapInfoView {
            name: self.name.deep_view(),
            sha256: self.sha256.deep_view(),
            size: self.size,
            other: self.other.deep_view(),
        }
    }
}

impl DeepView for MapInfo {
    type V = MapInfoView;

    open spec fn deep_view(&self) -> MapInfoView {
        self.view()
    }
}

impl Clone for MapInfo {
    fn clone(&self) -> (r: Self)
        ensures
            r@ == self@,
    {
        MapInfo {
            name: clone_opt_string(&self.name),
            sha256: clone_opt_string(&self.sha256),
            size: self.size,
            other: clone_pair_vec(&self.other),
        }
    }
}

/// Mathematical view of an [`Info`].
#[verifier::ext_equal]
pub ghost struct InfoView {
    pub clients: Option<Seq<ClientView>>,
    pub game_type: Option<Seq<char>>,
    pub max_clients: Option<i64>,
    pub max_players: Option<i64>,
    pub passworded: Option<bool>,
    pub name: Option<Seq<char>>,
    pub version: Option<Seq<char>>,
    pub other: Seq<(Seq<char>, Seq<char>)>,
}

/// The info block a server reports: its name, game type, counts and the
/// list of connected clients. Unrecognized fields ride along in `other`
/// as raw JSON text, keyed by field name.
pub struct Info {
    pub clients: Option<Vec<Client>>,
    pub game_type: Option<String>,
    pub max_clients: Option<i64>,
    pub max_players: Option<i64>,
    pub passworded: Option<bool>,
    pub name: Option<String>,
    pub version: Option<String>,
    pub other: Vec<(String, String)>,
}

impl View for Info {
    type V = InfoView;

    open spec fn view(&self) -> InfoView {
        InfoView {
            clients: self.clients.deep_view(),
            game_type: self.game_type.deep_view(),
            max_clients: self.max_clients,
            max_players: self.max_players,
            passworded: self.passworded,
            name: self.name.deep_view(),
            version: self.version.deep_view(),
            other: self.other.deep_view(),
        }
    }
}

impl DeepView for Info {
    type V = InfoView;

    open spec fn deep_view(&self) -> InfoView {
        self.view()
    }
}

impl Clone for Info {
    fn clone(&self) -> (r: Self)
        ensures
            r@ == self@,
    {
        let r = Info {
            clients: match &self.clients {
                Some(v) => Some(clone_client_vec(v)),
                None => None,
            },
            game_type: clone_opt_string(&self.game_type),
            max_clients: self.max_clients,
            max_players: self.max_players,
            passworded: self.passworded,
            name: clone_opt_string(&self.name),
            version: clone_opt_string(&self.version),
            other: clone_pair_vec(&self.other),
        };
        proof {
            assert(r@ =~= self@);
        }
        r
    }
}

/// Mathematical view of a [`Server`].
#[verifier::ext_equal]
pub ghost struct ServerView {
    pub addresses: Seq<Seq<char>>,
    pub location: Option<Seq<char>>,
    pub info: InfoView,
    pub other: Seq<(Seq<char>, Seq<char>)>,
}

/// A game server as reported by the upstream directory. Its identity is
/// its canonical address: the first entry of `addresses`.
pub struct Server {
    pub addresses: Vec<String>,
    pub location: Option<String>,
    pub info: Info,
    pub other: Vec<(String, String)>,
}

impl View for Server {
    type V = ServerView;

    open spec fn view(&self) -> ServerView {
        ServerView {
            addresses: self.addresses.deep_view(),
            location: self.location.deep_view(),
            info: self.info@,
            other: self.other.deep_view(),
        }
    }
}

impl DeepView for Server {
    type V = ServerView;

    open spec fn deep_view(&self) -> ServerView {
        self.view()
    }
}

impl Clone for Server {
    fn clone(&self) -> (r: Self)
        ensures
            r@ == self@,
    {
        let r = Server {
            addresses: clone_string_vec(&self.addresses),
            location: clone_opt_string(&self.location),
            info: self.info.clone(),
            other: clone_pair_vec(&self.other),
        };
        proof {
            assert(r@ =~= self@);
        }
        r
    }
}

/// The raw list of servers as the upstream directory reports it, before
/// it is keyed by canonical address.
pub struct ServerList {
    pub servers: Vec<Server>,
}

impl View for ServerList {
    type V = Seq<ServerView>;

    open spec fn view(&self) -> Seq<ServerView> {
        self.servers.deep_view()
    }
}

/// Mathematical view of a [`MasterEvent`].
#[verifier::ext_equal]
pub ghost enum MasterEventView {
    ClientJoined(ClientView, ServerView),
    ClientLeft(ClientView, ServerView),
    ServerWentOnline(ServerView),
    ServerWentOffline(ServerView),
}

/// One of the four domain events a tick can produce. Client events carry
/// the server the client joined or left; all events carry full entity
/// payloads, so subscribers need no extra lookup.
pub enum MasterEvent {
    ClientJoined(Client, Server),
    ClientLeft(Client, Server),
    ServerWentOnline(Server),
    ServerWentOffline(Server),
}

impl View for MasterEvent {
    type V = MasterEventView;

    open spec fn view(&self) -> MasterEventView {
        match *self {
            MasterEvent::ClientJoined(c, s) => MasterEventView::ClientJoined(c@, s@),
            MasterEvent::ClientLeft(c, s) => MasterEventView::ClientLeft(c@, s@),
            MasterEvent::ServerWentOnline(s) => MasterEventView::ServerWentOnline(s@),
            MasterEvent::ServerWentOffline(s) => MasterEventView::ServerWentOffline(s@),
        }
    }
}

impl DeepView for MasterEvent {
    type V = MasterEventView;

    open spec fn deep_view(&self) -> MasterEventView {
        self.view()
    }
}

impl Clone for MasterEvent {
    fn clone(&self) -> (r: Self)
        ensures
            r@ == self@,
    {
        match self {
            MasterEvent::ClientJoined(c, s) => MasterEvent::ClientJoined(c.clone(), s.clone()),
            MasterEvent::ClientLeft(c, s) => MasterEvent::ClientLeft(c.clone(), s.clone()),
            MasterEvent::ServerWentOnline(s) => MasterEvent::ServerWentOnline(s.clone()),
            MasterEvent::ServerWentOffline(s) => MasterEvent::ServerWentOffline(s.clone()),
        }
    }
}

impl PartialEq for Client {
    /// Name-only equality: the documented identity policy of the model.
    fn eq(&self, other: &Self) -> (r: bool) {
        opt_string_eq(&self.name, &other.name)
    }
}

impl vstd::std_specs::cmp::PartialEqSpecImpl for Client {
    open spec fn obeys_eq_spec() -> bool {
        true
    }

    open spec fn eq_spec(&self, other: &Self) -> bool {
        client_id(self@) == client_id(other@)
    }
}

} // verus!
