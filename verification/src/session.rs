//! Setting up and forgetting a session: what is checked, in which order the
//! vault, the core and the transport are asked, and what is answered.

use vstd::prelude::*;

use crate::json;
use crate::json::object_text;
use crate::json::JsonView;
use crate::origin;
use crate::origin::configured_origin;
use crate::text;
use crate::text::chars_of;

verus! {

/// The name under which the vault keeps the credentials.
pub const CREDENTIAL_SERVICE: &'static str = "org.viptv.smartcast";

/// How long a credential identifier is at most.
pub const CREDENTIAL_ID_LIMIT: usize = 128;

/// Characters that a credential identifier may hold.
pub open spec fn is_id_char(c: char) -> bool {
    ||| 'a' <= c <= 'z'
    ||| 'A' <= c <= 'Z'
    ||| '0' <= c <= '9'
    ||| c == '.'
    ||| c == '_'
    ||| c == '-'
}

/// Whether a text is a credential identifier.
pub open spec fn is_credential_id(id: Seq<char>) -> bool {
    0 < id.len() <= CREDENTIAL_ID_LIMIT && forall|i: int|
        0 <= i < id.len() ==> is_id_char(#[trigger] id[i])
}

/// Whether a text is a credential identifier: ASCII letters, digits, dots,
/// underscores and hyphens, at least one and at most as many as the limit says.
pub fn credential_id_valid(id: &str) -> (r: bool)
    ensures
        r == is_credential_id(id@),
{
    let cs = chars_of(id);
    let mut i: usize = 0;
    while i < cs.len()
        invariant
            i <= cs.len(),
            cs@ == id@,
            forall|j: int| 0 <= j < i ==> is_id_char(#[trigger] id@[j]),
        decreases cs.len() - i,
    {
        let c = cs[i];
        if !(('a' <= c && c <= 'z') || ('A' <= c && c <= 'Z') || ('0' <= c && c <= '9') || c == '.'
            || c == '_' || c == '-') {
            assert(!is_id_char(id@[i as int]));
            return false;
        }
        i = i + 1;
    }
    0 < cs.len() && cs.len() <= CREDENTIAL_ID_LIMIT
}

// ---------------------------------------------------------------------------
// Configuration
// ---------------------------------------------------------------------------

/// The fields of the core's configuration.
pub open spec fn configuration_fields(
    origin: Seq<char>,
    credential: Option<Seq<char>>,
    device_id: Seq<char>,
    device_name: Seq<char>,
) -> Seq<(Seq<char>, Option<Seq<char>>)> {
    seq![
        ("host"@, Some(origin)),
        ("authToken"@, credential),
        ("deviceId"@, Some(device_id)),
        ("deviceName"@, Some(device_name)),
    ]
}

/// What the core reads from its configuration: a missing credential is null.
pub open spec fn configuration(
    origin: Seq<char>,
    credential: Option<Seq<char>>,
    device_id: Seq<char>,
    device_name: Seq<char>,
) -> JsonView {
    JsonView::Object(
        map![
            "host"@ => JsonView::Text(origin),
            "authToken"@ => match credential {
                Some(token) => JsonView::Text(token),
                None => JsonView::Null,
            },
            "deviceId"@ => JsonView::Text(device_id),
            "deviceName"@ => JsonView::Text(device_name),
        ],
    )
}

/// The text of the core's configuration.
pub fn bridge_configuration(
    origin: String,
    credential: Option<String>,
    device_id: String,
    device_name: String,
) -> (r: String)
    ensures
        r@ == json::json_object_text(
            configuration_fields(origin@, text::option_view(credential), device_id@, device_name@),
        ),
        json::json_read(r@) == Some(
            configuration(origin@, text::option_view(credential), device_id@, device_name@),
        ),
{
    let mut fields: Vec<(String, Option<String>)> = Vec::new();
    fields.push(("host".to_owned(), Some(origin)));
    fields.push(("authToken".to_owned(), credential));
    fields.push(("deviceId".to_owned(), Some(device_id)));
    fields.push(("deviceName".to_owned(), Some(device_name)));
    let ghost view = configuration_fields(
        origin@,
        text::option_view(credential),
        device_id@,
        device_name@,
    );
    assert(fields.deep_view() =~= view);
    proof {
        lemma_configuration(origin@, text::option_view(credential), device_id@, device_name@);
    }
    object_text(fields)
}

proof fn lemma_configuration(
    origin: Seq<char>,
    credential: Option<Seq<char>>,
    device_id: Seq<char>,
    device_name: Seq<char>,
)
    ensures
        JsonView::Object(
            json::members_of(configuration_fields(origin, credential, device_id, device_name)),
        ) == configuration(origin, credential, device_id, device_name),
{
    let f4 = configuration_fields(origin, credential, device_id, device_name);
    let f3 = f4.drop_last();
    let f2 = f3.drop_last();
    let f1 = f2.drop_last();
    assert(f1.drop_last() =~= Seq::empty());
    assert(json::members_of(f1.drop_last()) =~= Map::empty());
    let m1 = json::members_of(f1);
    assert(m1 == Map::empty().insert("host"@, JsonView::Text(origin)));
    let m2 = json::members_of(f2);
    assert(f2.last() == f4[1]);
    assert(m2 == m1.insert(
        "authToken"@,
        match credential {
            Some(token) => JsonView::Text(token),
            None => JsonView::Null,
        },
    ));
    let m3 = json::members_of(f3);
    assert(f3.last() == f4[2]);
    assert(m3 == m2.insert("deviceId"@, JsonView::Text(device_id)));
    assert(json::members_of(f4) =~= configuration(
        origin,
        credential,
        device_id,
        device_name,
    )->Object_0);
}

/// The way to a session as a mathematical value.
pub enum ConfigureView {
    OpenVault {
        origin: Seq<char>,
        credential_id: Seq<char>,
        device_id: Seq<char>,
        device_name: Seq<char>,
    },
    ReadCredential {
        origin: Seq<char>,
        credential_id: Seq<char>,
        device_id: Seq<char>,
        device_name: Seq<char>,
    },
    BuildCore { origin: Seq<char>, credential_id: Seq<char>, configuration: Seq<char> },
    BuildTransport { origin: Seq<char>, credential_id: Seq<char> },
    Configured { origin: Seq<char>, credential_id: Seq<char> },
    Failed { message: Seq<char> },
}

/// The way to a session, which says what is done next.
pub enum Configuring {
    /// Open the vault for this credential identifier.
    OpenVault { origin: String, credential_id: String, device_id: String, device_name: String },
    /// Read the credential from the vault.
    ReadCredential {
        origin: String,
        credential_id: String,
        device_id: String,
        device_name: String,
    },
    /// Build the core from this configuration.
    BuildCore { origin: String, credential_id: String, configuration: String },
    /// Make the transport.
    BuildTransport { origin: String, credential_id: String },
    /// Keep the session, in place of the one before.
    Configured { origin: String, credential_id: String },
    /// There is no new session.
    Failed { message: String },
}

impl View for Configuring {
    type V = ConfigureView;

    open spec fn view(&self) -> ConfigureView {
        match *self {
            Configuring::OpenVault {
                origin,
                credential_id,
                device_id,
                device_name,
            } => ConfigureView::OpenVault {
                origin: origin@,
                credential_id: credential_id@,
                device_id: device_id@,
                device_name: device_name@,
            },
            Configuring::ReadCredential {
                origin,
                credential_id,
                device_id,
                device_name,
            } => ConfigureView::ReadCredential {
                origin: origin@,
                credential_id: credential_id@,
                device_id: device_id@,
                device_name: device_name@,
            },
            Configuring::BuildCore {
                origin,
                credential_id,
                configuration,
            } => ConfigureView::BuildCore {
                origin: origin@,
                credential_id: credential_id@,
                configuration: configuration@,
            },
            Configuring::BuildTransport {
                origin,
                credential_id,
            } => ConfigureView::BuildTransport { origin: origin@, credential_id: credential_id@ },
            Configuring::Configured { origin, credential_id } => ConfigureView::Configured {
                origin: origin@,
                credential_id: credential_id@,
            },
            Configuring::Failed { message } => ConfigureView::Failed { message: message@ },
        }
    }
}

/// What was learned as a mathematical value.
pub enum ConfigureEventView {
    Vault { opened: bool },
    Credential { token: Option<Seq<char>> },
    Core { built: bool },
    Transport { built: bool },
}

/// What was learned on the way to a session.
pub enum ConfigureEvent {
    /// The vault was opened, or could not be.
    Vault { opened: bool },
    /// The vault was read; it may hold no credential.
    Credential { token: Option<String> },
    /// The core took its configuration, or refused it.
    Core { built: bool },
    /// The transport was made, or could not be.
    Transport { built: bool },
}

impl View for ConfigureEvent {
    type V = ConfigureEventView;

    open spec fn view(&self) -> ConfigureEventView {
        match *self {
            ConfigureEvent::Vault { opened } => ConfigureEventView::Vault { opened },
            ConfigureEvent::Credential { token } => ConfigureEventView::Credential {
                token: text::option_view(token),
            },
            ConfigureEvent::Core { built } => ConfigureEventView::Core { built },
            ConfigureEvent::Transport { built } => ConfigureEventView::Transport { built },
        }
    }
}

/// Where the way to a session starts: the credential identifier is looked at
/// first, then the address, which gave `origin`.
pub open spec fn configure_begun(
    origin: Option<Seq<char>>,
    device_id: Seq<char>,
    device_name: Seq<char>,
    credential_id: Seq<char>,
) -> ConfigureView {
    if !is_credential_id(credential_id) {
        ConfigureView::Failed { message: "Invalid SmartCast credential identifier"@ }
    } else {
        match origin {
            Some(origin) => ConfigureView::OpenVault {
                origin,
                credential_id,
                device_id,
                device_name,
            },
            None => ConfigureView::Failed { message: "Invalid SmartCast TV origin"@ },
        }
    }
}

/// The state that follows. What a state does not wait for changes nothing.
pub open spec fn configure_next(
    state: ConfigureView,
    event: ConfigureEventView,
) -> ConfigureView {
    match (state, event) {
        (
            ConfigureView::OpenVault { origin, credential_id, device_id, device_name },
            ConfigureEventView::Vault { opened },
        ) => if opened {
            ConfigureView::ReadCredential { origin, credential_id, device_id, device_name }
        } else {
            ConfigureView::Failed { message: "SmartCast credential vault is unavailable"@ }
        },
        (
            ConfigureView::ReadCredential { origin, credential_id, device_id, device_name },
            ConfigureEventView::Credential { token },
        ) => ConfigureView::BuildCore {
            origin,
            credential_id,
            configuration: json::json_object_text(
                configuration_fields(origin, token, device_id, device_name),
            ),
        },
        (
            ConfigureView::BuildCore { origin, credential_id, .. },
            ConfigureEventView::Core { built },
        ) => if built {
            ConfigureView::BuildTransport { origin, credential_id }
        } else {
            ConfigureView::Failed { message: "Invalid SmartCast configuration"@ }
        },
        (
            ConfigureView::BuildTransport { origin, credential_id },
            ConfigureEventView::Transport { built },
        ) => if built {
            ConfigureView::Configured { origin, credential_id }
        } else {
            ConfigureView::Failed { message: "SmartCast transport is unavailable"@ }
        },
        _ => state,
    }
}

fn not_configured(message: &str) -> (r: Configuring)
    ensures
        r@ == (ConfigureView::Failed { message: message@ }),
{
    Configuring::Failed { message: message.to_owned() }
}

/// Begins the way to a session, when the address that was typed gave the origin
/// `origin` or an error.
pub fn configure_toward(
    origin: Result<String, String>,
    device_id: String,
    device_name: String,
    credential_id: String,
) -> (r: Configuring)
    ensures
        r@ == configure_begun(
            match origin {
                Ok(text) => Some(text@),
                Err(_) => None,
            },
            device_id@,
            device_name@,
            credential_id@,
        ),
{
    if !credential_id_valid(credential_id.as_str()) {
        return not_configured("Invalid SmartCast credential identifier");
    }
    match origin {
        Ok(origin) => Configuring::OpenVault { origin, credential_id, device_id, device_name },
        Err(_) => not_configured("Invalid SmartCast TV origin"),
    }
}

/// Begins the way to a session.
///
/// An IPv4 address or a DNS name stands for the origin with that host in small
/// letters, and with the port behind it or else the televisions' own, whether or
/// not `https://` stands before it and a slash behind; so an origin stands for
/// itself. Only a name with an encoded label can be refused. An address of
/// `https` with a user, a query or a fragment is refused.
pub fn smartcast_configure(
    host: &str,
    device_id: String,
    device_name: String,
    credential_id: String,
) -> (r: Configuring)
    ensures
        r@ == configure_begun(
            origin::session_origin(host@, origin::read_url(origin::url_text(host@))),
            device_id@,
            device_name@,
            credential_id@,
        ),
        forall|scheme: bool, name: Seq<char>, port: Option<u16>, slash: bool|
            host@ == #[trigger] origin::address(scheme, name, port, origin::slash_text(slash))
                && origin::is_host(text::lowered(name)) && origin::authority_fits(name, port) ==> {
                &&& r@ == configure_begun(
                    origin::host_origin(name, port, origin::SMARTCAST_PORT),
                    device_id@,
                    device_name@,
                    credential_id@,
                )
                &&& origin::is_plain_host(text::lowered(name)) ==> origin::is_accepted(
                    text::lowered(name),
                )
            },
        forall|name: Seq<char>, port: u16|
            host@ == #[trigger] origin::origin_of(name, port) && origin::is_host(name)
                && origin::authority_fits(name, Some(port)) && (origin::is_plain_host(name)
                || origin::is_accepted(name)) ==> r@ == configure_begun(
                Some(host@),
                device_id@,
                device_name@,
                credential_id@,
            ),
        origin::asks_more(origin::url_text(host@)) ==> r is Failed,
        origin::names_user(origin::url_text(host@)) ==> r is Failed,
{
    configure_toward(configured_origin(host), device_id, device_name, credential_id)
}

impl Configuring {
    /// Takes in what was learned. The configuration that the core is built from
    /// reads back as what it was made of.
    pub fn next(self, event: ConfigureEvent) -> (r: Configuring)
        ensures
            r@ == configure_next(self@, event@),
            (self@, event@) matches (
                ConfigureView::ReadCredential { origin, credential_id, device_id, device_name },
                ConfigureEventView::Credential { token },
            ) ==> (r@ matches ConfigureView::BuildCore { configuration: written, .. }
                && json::json_read(written) == Some(
                configuration(origin, token, device_id, device_name),
            )),
    {
        match (self, event) {
            (
                Configuring::OpenVault { origin, credential_id, device_id, device_name },
                ConfigureEvent::Vault { opened },
            ) => if opened {
                Configuring::ReadCredential { origin, credential_id, device_id, device_name }
            } else {
                not_configured("SmartCast credential vault is unavailable")
            },
            (
                Configuring::ReadCredential { origin, credential_id, device_id, device_name },
                ConfigureEvent::Credential { token },
            ) => {
                let configuration = bridge_configuration(
                    origin.clone(),
                    token,
                    device_id,
                    device_name,
                );
                Configuring::BuildCore { origin, credential_id, configuration }
            },
            (
                Configuring::BuildCore { origin, credential_id, configuration: _ },
                ConfigureEvent::Core { built },
            ) => if built {
                Configuring::BuildTransport { origin, credential_id }
            } else {
                not_configured("Invalid SmartCast configuration")
            },
            (
                Configuring::BuildTransport { origin, credential_id },
                ConfigureEvent::Transport { built },
            ) => if built {
                Configuring::Configured { origin, credential_id }
            } else {
                not_configured("SmartCast transport is unavailable")
            },
            (state, _) => state,
        }
    }
}

// ---------------------------------------------------------------------------
// Forgetting
// ---------------------------------------------------------------------------

/// How the vault answered when a credential was deleted.
#[derive(Clone, Copy)]
pub enum Deletion {
    Deleted,
    NoEntry,
    Failed,
}

/// What was learned while a credential is forgotten.
#[derive(Clone, Copy)]
pub enum ForgetEvent {
    /// What was running was cancelled.
    Cancelled,
    /// The session was looked up.
    Session { configured: bool },
    /// The core dropped its credential, or could not.
    Core { cleared: bool },
    /// The vault was opened, or could not be.
    Vault { opened: bool },
    /// The vault was told to delete the credential.
    Credential { deletion: Deletion },
}

/// Forgetting as a mathematical value.
pub enum ForgetView {
    Cancel,
    LookUpSession,
    ClearCore,
    OpenVault,
    DeleteCredential,
    Done,
    Failed { message: Seq<char> },
}

/// The state of forgetting a credential, which says what is done next.
pub enum Forgetting {
    /// Cancel what is running.
    Cancel,
    /// Look up the session.
    LookUpSession,
    /// Have the core drop its credential.
    ClearCore,
    /// Open the vault.
    OpenVault,
    /// Delete the credential from the vault.
    DeleteCredential,
    /// Nothing is left to forget.
    Done,
    /// Forgetting failed.
    Failed { message: String },
}

impl View for Forgetting {
    type V = ForgetView;

    open spec fn view(&self) -> ForgetView {
        match *self {
            Forgetting::Cancel => ForgetView::Cancel,
            Forgetting::LookUpSession => ForgetView::LookUpSession,
            Forgetting::ClearCore => ForgetView::ClearCore,
            Forgetting::OpenVault => ForgetView::OpenVault,
            Forgetting::DeleteCredential => ForgetView::DeleteCredential,
            Forgetting::Done => ForgetView::Done,
            Forgetting::Failed { message } => ForgetView::Failed { message: message@ },
        }
    }
}

/// The state that follows: nothing is to be done without a session, and a
/// credential that is not there counts as deleted. What a state does not wait
/// for changes nothing.
pub open spec fn forget_next(state: ForgetView, event: ForgetEvent) -> ForgetView {
    match (state, event) {
        (ForgetView::Cancel, ForgetEvent::Cancelled) => ForgetView::LookUpSession,
        (ForgetView::LookUpSession, ForgetEvent::Session { configured }) => if configured {
            ForgetView::ClearCore
        } else {
            ForgetView::Done
        },
        (ForgetView::ClearCore, ForgetEvent::Core { cleared }) => if cleared {
            ForgetView::OpenVault
        } else {
            ForgetView::Failed { message: "SmartCast core is unavailable"@ }
        },
        (ForgetView::OpenVault, ForgetEvent::Vault { opened }) => if opened {
            ForgetView::DeleteCredential
        } else {
            ForgetView::Failed { message: "SmartCast credential vault is unavailable"@ }
        },
        (ForgetView::DeleteCredential, ForgetEvent::Credential { deletion }) => match deletion {
            Deletion::Deleted => ForgetView::Done,
            Deletion::NoEntry => ForgetView::Done,
            Deletion::Failed => ForgetView::Failed {
                message: "Could not clear SmartCast credential"@,
            },
        },
        _ => state,
    }
}

fn not_forgotten(message: &str) -> (r: Forgetting)
    ensures
        r@ == (ForgetView::Failed { message: message@ }),
{
    Forgetting::Failed { message: message.to_owned() }
}

/// Begins to forget the credential of the session.
pub fn smartcast_forget() -> (r: Forgetting)
    ensures
        r@ == ForgetView::Cancel,
{
    Forgetting::Cancel
}

impl Forgetting {
    /// Takes in what was learned.
    pub fn next(self, event: ForgetEvent) -> (r: Forgetting)
        ensures
            r@ == forget_next(self@, event),
    {
        match (self, event) {
            (Forgetting::Cancel, ForgetEvent::Cancelled) => Forgetting::LookUpSession,
            (Forgetting::LookUpSession, ForgetEvent::Session { configured }) => if configured {
                Forgetting::ClearCore
            } else {
                Forgetting::Done
            },
            (Forgetting::ClearCore, ForgetEvent::Core { cleared }) => if cleared {
                Forgetting::OpenVault
            } else {
                not_forgotten("SmartCast core is unavailable")
            },
            (Forgetting::OpenVault, ForgetEvent::Vault { opened }) => if opened {
                Forgetting::DeleteCredential
            } else {
                not_forgotten("SmartCast credential vault is unavailable")
            },
            (
                Forgetting::DeleteCredential,
                ForgetEvent::Credential { deletion },
            ) => match deletion {
                Deletion::Deleted => Forgetting::Done,
                Deletion::NoEntry => Forgetting::Done,
                Deletion::Failed => not_forgotten("Could not clear SmartCast credential"),
            },
            (state, _) => state,
        }
    }
}

// ---------------------------------------------------------------------------
// Laws
// ---------------------------------------------------------------------------

/// The core reads back each thing that was written into its configuration.
pub proof fn law_configuration_reads_back(
    origin: Seq<char>,
    credential: Option<Seq<char>>,
    device_id: Seq<char>,
    device_name: Seq<char>,
)
    ensures
        ({
            let read = configuration(origin, credential, device_id, device_name);
            &&& read.member("host"@) == Some(JsonView::Text(origin))
            &&& read.member("authToken"@) == Some(
                match credential {
                    Some(token) => JsonView::Text(token),
                    None => JsonView::Null,
                },
            )
            &&& read.member("deviceId"@) == Some(JsonView::Text(device_id))
            &&& read.member("deviceName"@) == Some(JsonView::Text(device_name))
        }),
{
    reveal_strlit("host");
    reveal_strlit("authToken");
    reveal_strlit("deviceId");
    reveal_strlit("deviceName");
    assert("host"@.len() == 4 && "authToken"@.len() == 9 && "deviceId"@.len() == 8
        && "deviceName"@.len() == 10);
}

/// The state after all of `events`.
pub open spec fn configure_after(
    state: ConfigureView,
    events: Seq<ConfigureEventView>,
) -> ConfigureView
    decreases events.len(),
{
    if events.len() == 0 {
        state
    } else {
        configure_next(configure_after(state, events.drop_last()), events.last())
    }
}

/// Whether a state on the way to a session holds this origin and identifier.
pub open spec fn heads_for(
    state: ConfigureView,
    origin: Seq<char>,
    credential_id: Seq<char>,
) -> bool {
    match state {
        ConfigureView::OpenVault { origin: o, credential_id: c, .. } => o == origin && c
            == credential_id,
        ConfigureView::ReadCredential { origin: o, credential_id: c, .. } => o == origin && c
            == credential_id,
        ConfigureView::BuildCore { origin: o, credential_id: c, .. } => o == origin && c
            == credential_id,
        ConfigureView::BuildTransport { origin: o, credential_id: c } => o == origin && c
            == credential_id,
        ConfigureView::Configured { origin: o, credential_id: c } => o == origin && c
            == credential_id,
        ConfigureView::Failed { .. } => true,
    }
}

proof fn lemma_heads_for(
    origin: Option<Seq<char>>,
    device_id: Seq<char>,
    device_name: Seq<char>,
    credential_id: Seq<char>,
    events: Seq<ConfigureEventView>,
)
    ensures
        ({
            let start = configure_begun(origin, device_id, device_name, credential_id);
            let state = configure_after(start, events);
            &&& !(state is Failed) ==> origin is Some && is_credential_id(credential_id)
            &&& heads_for(state, origin->0, credential_id)
        }),
    decreases events.len(),
{
    if events.len() > 0 {
        lemma_heads_for(origin, device_id, device_name, credential_id, events.drop_last());
    }
}

/// Whatever happens, a session has the origin that its address gave and the
/// identifier that was asked for, and both were found valid.
pub proof fn law_sessions_are_as_asked_for(
    origin: Option<Seq<char>>,
    device_id: Seq<char>,
    device_name: Seq<char>,
    credential_id: Seq<char>,
    events: Seq<ConfigureEventView>,
)
    ensures
        configure_after(
            configure_begun(origin, device_id, device_name, credential_id),
            events,
        ) matches ConfigureView::Configured { origin: o, credential_id: c } ==> {
            &&& origin == Some(o)
            &&& c == credential_id
            &&& is_credential_id(c)
        },
{
    lemma_heads_for(origin, device_id, device_name, credential_id, events);
}

/// A session comes about when the address and the identifier are valid and
/// every step succeeds, whether or not the vault holds a credential.
pub proof fn law_sessions_come_about(
    origin: Seq<char>,
    device_id: Seq<char>,
    device_name: Seq<char>,
    credential_id: Seq<char>,
    token: Option<Seq<char>>,
)
    requires
        is_credential_id(credential_id),
    ensures
        configure_after(
            configure_begun(Some(origin), device_id, device_name, credential_id),
            seq![
                ConfigureEventView::Vault { opened: true },
                ConfigureEventView::Credential { token },
                ConfigureEventView::Core { built: true },
                ConfigureEventView::Transport { built: true },
            ],
        ) == (ConfigureView::Configured { origin, credential_id }),
{
    let start = configure_begun(Some(origin), device_id, device_name, credential_id);
    let e4 = seq![
        ConfigureEventView::Vault { opened: true },
        ConfigureEventView::Credential { token },
        ConfigureEventView::Core { built: true },
        ConfigureEventView::Transport { built: true },
    ];
    let e3 = e4.drop_last();
    let e2 = e3.drop_last();
    let e1 = e2.drop_last();
    assert(e1.drop_last() =~= Seq::empty());
    assert(configure_after(start, e1.drop_last()) == start);
    assert(configure_after(start, e1) == configure_next(start, e4[0]));
    assert(configure_after(start, e2) == configure_next(configure_after(start, e1), e4[1]));
    assert(configure_after(start, e3) == configure_next(configure_after(start, e2), e4[2]));
}

/// The state after all of `events`.
pub open spec fn forget_after(state: ForgetView, events: Seq<ForgetEvent>) -> ForgetView
    decreases events.len(),
{
    if events.len() == 0 {
        state
    } else {
        forget_next(forget_after(state, events.drop_last()), events.last())
    }
}

/// What has to have happened before a state in which a credential is forgotten.
pub open spec fn forgotten_so_far(state: ForgetView, events: Seq<ForgetEvent>) -> bool {
    match state {
        ForgetView::Cancel => true,
        ForgetView::LookUpSession => events.contains(ForgetEvent::Cancelled),
        ForgetView::ClearCore => events.contains(ForgetEvent::Cancelled),
        ForgetView::OpenVault => events.contains(ForgetEvent::Cancelled) && events.contains(
            ForgetEvent::Core { cleared: true },
        ),
        ForgetView::DeleteCredential => events.contains(ForgetEvent::Cancelled)
            && events.contains(ForgetEvent::Core { cleared: true }),
        ForgetView::Done => {
            &&& events.contains(ForgetEvent::Cancelled)
            &&& {
                ||| events.contains(ForgetEvent::Session { configured: false })
                ||| {
                    &&& events.contains(ForgetEvent::Core { cleared: true })
                    &&& {
                        ||| events.contains(ForgetEvent::Credential { deletion: Deletion::Deleted })
                        ||| events.contains(ForgetEvent::Credential { deletion: Deletion::NoEntry })
                    }
                }
            }
        },
        ForgetView::Failed { .. } => true,
    }
}

/// Whatever happens, forgetting ends well only once what was running was
/// cancelled, and either there is no session, or the core dropped the credential
/// and the vault holds none.
pub proof fn law_nothing_is_left_when_forgetting_ends_well(events: Seq<ForgetEvent>)
    ensures
        forgotten_so_far(forget_after(ForgetView::Cancel, events), events),
    decreases events.len(),
{
    if events.len() > 0 {
        let earlier = events.drop_last();
        law_nothing_is_left_when_forgetting_ends_well(earlier);
        assert forall|e: ForgetEvent| #[trigger] earlier.contains(e) implies events.contains(e) by {
            let i = choose|i: int| 0 <= i < earlier.len() && earlier[i] == e;
            assert(events[i] == e);
        }
        assert(events.contains(events.last())) by {
            assert(events[events.len() - 1] == events.last());
        }
    }
}

/// What there is to forget, and whether what runs is cancelled.
pub struct Keeping {
    pub configured: bool,
    pub cancelled: bool,
    pub core_credential: bool,
    pub vault_entry: bool,
}

/// What is learned in a state from a core and a vault that work.
pub open spec fn forget_answer(keeping: Keeping, state: ForgetView) -> ForgetEvent {
    match state {
        ForgetView::LookUpSession => ForgetEvent::Session { configured: keeping.configured },
        ForgetView::ClearCore => ForgetEvent::Core { cleared: true },
        ForgetView::OpenVault => ForgetEvent::Vault { opened: true },
        ForgetView::DeleteCredential => ForgetEvent::Credential {
            deletion: if keeping.vault_entry {
                Deletion::Deleted
            } else {
                Deletion::NoEntry
            },
        },
        _ => ForgetEvent::Cancelled,
    }
}

/// What is left once a state's own work is done.
pub open spec fn forget_work(keeping: Keeping, state: ForgetView) -> Keeping {
    match state {
        ForgetView::Cancel => Keeping { cancelled: true, ..keeping },
        ForgetView::ClearCore => Keeping { core_credential: false, ..keeping },
        ForgetView::DeleteCredential => Keeping { vault_entry: false, ..keeping },
        _ => keeping,
    }
}

/// What is left, and the state, after `n` steps with a core and a vault that
/// work.
pub open spec fn forget_steps(keeping: Keeping, state: ForgetView, n: nat) -> (Keeping, ForgetView)
    decreases n,
{
    if n == 0 {
        (keeping, state)
    } else {
        forget_steps(
            forget_work(keeping, state),
            forget_next(state, forget_answer(keeping, state)),
            (n - 1) as nat,
        )
    }
}

/// With a core and a vault that work, forgetting ends well in five steps: what
/// runs is cancelled, and neither the core nor the vault of a session holds a
/// credential any more, whether or not they held one before. Forgetting once
/// more ends well too, and changes nothing.
pub proof fn law_forgetting_twice_is_forgetting_once(keeping: Keeping)
    ensures
        ({
            let once = Keeping {
                configured: keeping.configured,
                cancelled: true,
                core_credential: keeping.core_credential && !keeping.configured,
                vault_entry: keeping.vault_entry && !keeping.configured,
            };
            &&& forget_steps(keeping, ForgetView::Cancel, 5) == (once, ForgetView::Done)
            &&& forget_steps(once, ForgetView::Cancel, 5) == (once, ForgetView::Done)
        }),
{
    reveal_with_fuel(forget_steps, 6);
}

/// Whatever happens, the way to a session fails with one of a few fixed
/// messages.
pub proof fn law_configuring_fails_with_a_fixed_message(
    origin: Option<Seq<char>>,
    device_id: Seq<char>,
    device_name: Seq<char>,
    credential_id: Seq<char>,
    events: Seq<ConfigureEventView>,
)
    ensures
        configure_after(
            configure_begun(origin, device_id, device_name, credential_id),
            events,
        ) matches ConfigureView::Failed { message } ==> {
            ||| message == "Invalid SmartCast credential identifier"@
            ||| message == "Invalid SmartCast TV origin"@
            ||| message == "SmartCast credential vault is unavailable"@
            ||| message == "Invalid SmartCast configuration"@
            ||| message == "SmartCast transport is unavailable"@
        },
    decreases events.len(),
{
    if events.len() > 0 {
        law_configuring_fails_with_a_fixed_message(
            origin,
            device_id,
            device_name,
            credential_id,
            events.drop_last(),
        );
    }
}

/// Whatever happens, forgetting fails with one of a few fixed messages.
pub proof fn law_forgetting_fails_with_a_fixed_message(events: Seq<ForgetEvent>)
    ensures
        forget_after(ForgetView::Cancel, events) matches ForgetView::Failed { message } ==> {
            ||| message == "SmartCast core is unavailable"@
            ||| message == "SmartCast credential vault is unavailable"@
            ||| message == "Could not clear SmartCast credential"@
        },
    decreases events.len(),
{
    if events.len() > 0 {
        law_forgetting_fails_with_a_fixed_message(events.drop_last());
    }
}

/// An identifier has from one to 128 characters, each an ASCII letter or digit,
/// a dot, an underscore or a hyphen.
pub proof fn law_identifiers_are_short_plain_texts(id: Seq<char>)
    ensures
        is_credential_id(id) <==> {
            &&& 1 <= id.len()
            &&& id.len() <= 128
            &&& forall|i: int|
                #![trigger id[i]]
                0 <= i < id.len() ==> {
                    ||| 0x30 <= id[i] as int && id[i] as int <= 0x39
                    ||| 0x41 <= id[i] as int && id[i] as int <= 0x5a
                    ||| 0x61 <= id[i] as int && id[i] as int <= 0x7a
                    ||| id[i] as int == 0x2d
                    ||| id[i] as int == 0x2e
                    ||| id[i] as int == 0x5f
                }
        },
{
    if is_credential_id(id) {
        assert forall|i: int| #![trigger id[i]] 0 <= i < id.len() implies is_id_char(id[i]) by {}
    } else if 1 <= id.len() && id.len() <= 128 {
        let i = choose|i: int| 0 <= i < id.len() && !is_id_char(#[trigger] id[i]);
        assert(!is_id_char(id[i]));
    }
}

/// A session is looked for exactly if its identifier and its address are valid,
/// with all that was asked for as it came; the identifier is judged first.
pub proof fn law_sessions_begin_as_asked_for(
    origin: Seq<char>,
    device_id: Seq<char>,
    device_name: Seq<char>,
    credential_id: Seq<char>,
)
    ensures
        is_credential_id(credential_id) ==> configure_begun(
            Some(origin),
            device_id,
            device_name,
            credential_id,
        ) == (ConfigureView::OpenVault { origin, credential_id, device_id, device_name }),
        is_credential_id(credential_id) ==> configure_begun(
            None,
            device_id,
            device_name,
            credential_id,
        ) == (ConfigureView::Failed { message: "Invalid SmartCast TV origin"@ }),
        !is_credential_id(credential_id) ==> {
            &&& configure_begun(Some(origin), device_id, device_name, credential_id) == (
            ConfigureView::Failed { message: "Invalid SmartCast credential identifier"@ })
            &&& configure_begun(None, device_id, device_name, credential_id) == (
            ConfigureView::Failed { message: "Invalid SmartCast credential identifier"@ })
        },
{
}

/// Whether a value is an object whose members say all that the core is told: the
/// origin, the device and its name, and the token or null.
pub open spec fn tells_the_core(
    value: JsonView,
    origin: Seq<char>,
    token: Option<Seq<char>>,
    device_id: Seq<char>,
    device_name: Seq<char>,
) -> bool {
    &&& value.member("host"@) == Some(JsonView::Text(origin))
    &&& value.member("deviceId"@) == Some(JsonView::Text(device_id))
    &&& value.member("deviceName"@) == Some(JsonView::Text(device_name))
    &&& value.member("authToken"@) == Some(
        if token is Some {
            JsonView::Text(token->0)
        } else {
            JsonView::Null
        },
    )
    &&& value matches JsonView::Object(members) && forall|key: Seq<char>| #[trigger]
        members.dom().contains(key) ==> key == "host"@ || key == "authToken"@ || key == "deviceId"@
            || key == "deviceName"@
}

/// Whether a configuration was written from these fields, and these say to the
/// core what they are for.
pub open spec fn is_written_for(
    written: Seq<char>,
    fields: Seq<(Seq<char>, Option<Seq<char>>)>,
    origin: Seq<char>,
    token: Option<Seq<char>>,
    device_id: Seq<char>,
    device_name: Seq<char>,
) -> bool {
    &&& written == json::json_object_text(fields)
    &&& tells_the_core(
        JsonView::Object(json::members_of(fields)),
        origin,
        token,
        device_id,
        device_name,
    )
}

/// Whether a configuration was written with a token that the vault gave.
pub open spec fn is_written_as_given(
    written: Seq<char>,
    origin: Seq<char>,
    device_id: Seq<char>,
    device_name: Seq<char>,
    events: Seq<ConfigureEventView>,
) -> bool {
    exists|fields: Seq<(Seq<char>, Option<Seq<char>>)>, token: Option<Seq<char>>| #[trigger]
        is_written_for(written, fields, origin, token, device_id, device_name) && events.contains(
            ConfigureEventView::Credential { token },
        )
}

/// Whether a state on the way to a session holds what was asked for.
pub open spec fn keeps_what_was_asked_for(
    state: ConfigureView,
    origin: Seq<char>,
    device_id: Seq<char>,
    device_name: Seq<char>,
    credential_id: Seq<char>,
    events: Seq<ConfigureEventView>,
) -> bool {
    match state {
        ConfigureView::OpenVault { origin: o, credential_id: c, device_id: d, device_name: n } => o
            == origin && c == credential_id && d == device_id && n == device_name,
        ConfigureView::ReadCredential {
            origin: o,
            credential_id: c,
            device_id: d,
            device_name: n,
        } => o == origin && c == credential_id && d == device_id && n == device_name,
        ConfigureView::BuildCore { origin: o, credential_id: c, configuration: w } => o == origin
            && c == credential_id && is_written_as_given(
            w,
            origin,
            device_id,
            device_name,
            events,
        ),
        ConfigureView::BuildTransport { origin: o, credential_id: c } => o == origin && c
            == credential_id,
        ConfigureView::Configured { origin: o, credential_id: c } => o == origin && c
            == credential_id,
        ConfigureView::Failed { .. } => true,
    }
}

/// Whatever happens on the way to a session, each state holds what was asked for
/// as it came, and the configuration that the core is built from is written from
/// fields that say the origin, the device and its name as they were asked for,
/// and the token that the vault gave, or null where it gave none.
pub proof fn law_the_core_is_told_what_was_asked_for(
    origin: Seq<char>,
    device_id: Seq<char>,
    device_name: Seq<char>,
    credential_id: Seq<char>,
    events: Seq<ConfigureEventView>,
)
    ensures
        keeps_what_was_asked_for(
            configure_after(
                configure_begun(Some(origin), device_id, device_name, credential_id),
                events,
            ),
            origin,
            device_id,
            device_name,
            credential_id,
            events,
        ),
    decreases events.len(),
{
    if events.len() > 0 {
        let start = configure_begun(Some(origin), device_id, device_name, credential_id);
        let earlier = events.drop_last();
        law_the_core_is_told_what_was_asked_for(
            origin,
            device_id,
            device_name,
            credential_id,
            earlier,
        );
        assert forall|e: ConfigureEventView| #[trigger] earlier.contains(e) implies events.contains(
            e,
        ) by {
            let i = choose|i: int| 0 <= i < earlier.len() && earlier[i] == e;
            assert(events[i] == e);
        }
        assert(events.contains(events.last())) by {
            assert(events[events.len() - 1] == events.last());
        }
        match (configure_after(start, earlier), events.last()) {
            (ConfigureView::ReadCredential { .. }, ConfigureEventView::Credential { token }) => {
                let fields = configuration_fields(origin, token, device_id, device_name);
                lemma_configuration(origin, token, device_id, device_name);
                law_configuration_reads_back(origin, token, device_id, device_name);
                assert(is_written_for(
                    json::json_object_text(fields),
                    fields,
                    origin,
                    token,
                    device_id,
                    device_name,
                ));
                assert(events.contains(ConfigureEventView::Credential { token }));
                assert(is_written_as_given(
                    json::json_object_text(fields),
                    origin,
                    device_id,
                    device_name,
                    events,
                ));
            },
            (ConfigureView::BuildCore { configuration: w, .. }, _) => {
                let (fields, token) = choose|
                    fields: Seq<(Seq<char>, Option<Seq<char>>)>,
                    token: Option<Seq<char>>,
                | #[trigger]
                    is_written_for(w, fields, origin, token, device_id, device_name)
                        && earlier.contains(ConfigureEventView::Credential { token });
                assert(events.contains(ConfigureEventView::Credential { token }));
                assert(is_written_as_given(w, origin, device_id, device_name, events));
            },
            _ => {},
        }
    }
}

/// The configuration that is read back tells the core what it was made of and no
/// more.
pub proof fn law_the_configuration_says_what_it_is_for(
    origin: Seq<char>,
    token: Option<Seq<char>>,
    device_id: Seq<char>,
    device_name: Seq<char>,
)
    ensures
        tells_the_core(
            configuration(origin, token, device_id, device_name),
            origin,
            token,
            device_id,
            device_name,
        ),
        tells_the_core(
            JsonView::Object(
                json::members_of(configuration_fields(origin, token, device_id, device_name)),
            ),
            origin,
            token,
            device_id,
            device_name,
        ),
{
    lemma_configuration(origin, token, device_id, device_name);
    law_configuration_reads_back(origin, token, device_id, device_name);
}

/// Each step on the way to a session follows the one before, and one that fails
/// says which.
pub proof fn law_the_steps_to_a_session(
    origin: Seq<char>,
    credential_id: Seq<char>,
    device_id: Seq<char>,
    device_name: Seq<char>,
    token: Option<Seq<char>>,
    written: Seq<char>,
)
    ensures
        ({
            let open = ConfigureView::OpenVault { origin, credential_id, device_id, device_name };
            let read = ConfigureView::ReadCredential {
                origin,
                credential_id,
                device_id,
                device_name,
            };
            let build = ConfigureView::BuildCore { origin, credential_id, configuration: written };
            let transport = ConfigureView::BuildTransport { origin, credential_id };
            &&& configure_next(open, ConfigureEventView::Vault { opened: true }) == read
            &&& configure_next(open, ConfigureEventView::Vault { opened: false }) == (
            ConfigureView::Failed { message: "SmartCast credential vault is unavailable"@ })
            &&& configure_next(
                read,
                ConfigureEventView::Credential { token },
            ) matches ConfigureView::BuildCore { origin: o, credential_id: c, configuration: w }
                && o == origin && c == credential_id && is_written_as_given(
                w,
                origin,
                device_id,
                device_name,
                seq![ConfigureEventView::Credential { token }],
            )
            &&& configure_next(build, ConfigureEventView::Core { built: true }) == transport
            &&& configure_next(build, ConfigureEventView::Core { built: false }) == (
            ConfigureView::Failed { message: "Invalid SmartCast configuration"@ })
            &&& configure_next(transport, ConfigureEventView::Transport { built: true }) == (
            ConfigureView::Configured { origin, credential_id })
            &&& configure_next(transport, ConfigureEventView::Transport { built: false }) == (
            ConfigureView::Failed { message: "SmartCast transport is unavailable"@ })
        }),
{
    let fields = configuration_fields(origin, token, device_id, device_name);
    let given = seq![ConfigureEventView::Credential { token }];
    law_the_configuration_says_what_it_is_for(origin, token, device_id, device_name);
    assert(given[0] == (ConfigureEventView::Credential { token }));
    assert(given.contains(ConfigureEventView::Credential { token }));
    assert(is_written_for(
        json::json_object_text(fields),
        fields,
        origin,
        token,
        device_id,
        device_name,
    ));
}

/// What the way to a session does not wait for leaves it as it is; so a session,
/// and that there is none, are final.
pub proof fn law_other_events_leave_configuring_as_it_is(
    state: ConfigureView,
    event: ConfigureEventView,
)
    requires
        !({
            ||| state is OpenVault && event is Vault
            ||| state is ReadCredential && event is Credential
            ||| state is BuildCore && event is Core
            ||| state is BuildTransport && event is Transport
        }),
    ensures
        configure_next(state, event) == state,
{
}

/// Forgetting cancels what runs, ends there without a session, and else has the
/// core drop its credential and the vault delete its own, which may have none;
/// each step that fails says so.
pub proof fn law_the_steps_of_forgetting()
    ensures
        forget_next(ForgetView::Cancel, ForgetEvent::Cancelled) == ForgetView::LookUpSession,
        forget_next(ForgetView::LookUpSession, ForgetEvent::Session { configured: false })
            == ForgetView::Done,
        forget_next(ForgetView::LookUpSession, ForgetEvent::Session { configured: true })
            == ForgetView::ClearCore,
        forget_next(ForgetView::ClearCore, ForgetEvent::Core { cleared: true })
            == ForgetView::OpenVault,
        forget_next(ForgetView::ClearCore, ForgetEvent::Core { cleared: false }) == (
        ForgetView::Failed { message: "SmartCast core is unavailable"@ }),
        forget_next(ForgetView::OpenVault, ForgetEvent::Vault { opened: true })
            == ForgetView::DeleteCredential,
        forget_next(ForgetView::OpenVault, ForgetEvent::Vault { opened: false }) == (
        ForgetView::Failed { message: "SmartCast credential vault is unavailable"@ }),
        forget_next(
            ForgetView::DeleteCredential,
            ForgetEvent::Credential { deletion: Deletion::Deleted },
        ) == ForgetView::Done,
        forget_next(
            ForgetView::DeleteCredential,
            ForgetEvent::Credential { deletion: Deletion::NoEntry },
        ) == ForgetView::Done,
        forget_next(
            ForgetView::DeleteCredential,
            ForgetEvent::Credential { deletion: Deletion::Failed },
        ) == (ForgetView::Failed { message: "Could not clear SmartCast credential"@ }),
{
}

/// What forgetting does not wait for leaves it as it is; so its end is final.
pub proof fn law_other_events_leave_forgetting_as_it_is(state: ForgetView, event: ForgetEvent)
    requires
        !({
            ||| state is Cancel && event is Cancelled
            ||| state is LookUpSession && event is Session
            ||| state is ClearCore && event is Core
            ||| state is OpenVault && event is Vault
            ||| state is DeleteCredential && event is Credential
        }),
    ensures
        forget_next(state, event) == state,
{
}

/// The mathematical value of a state on the way to a session, and of what is
/// learned there, holds all that these hold.
pub proof fn law_nothing_of_configuring_is_left_out(
    origin: String,
    credential_id: String,
    device_id: String,
    device_name: String,
    text: String,
    flag: bool,
)
    ensures
        (Configuring::OpenVault { origin, credential_id, device_id, device_name })@ == (
        ConfigureView::OpenVault {
            origin: origin@,
            credential_id: credential_id@,
            device_id: device_id@,
            device_name: device_name@,
        }),
        (Configuring::ReadCredential { origin, credential_id, device_id, device_name })@ == (
        ConfigureView::ReadCredential {
            origin: origin@,
            credential_id: credential_id@,
            device_id: device_id@,
            device_name: device_name@,
        }),
        (Configuring::BuildCore { origin, credential_id, configuration: text })@ == (
        ConfigureView::BuildCore {
            origin: origin@,
            credential_id: credential_id@,
            configuration: text@,
        }),
        (Configuring::BuildTransport { origin, credential_id })@ == (
        ConfigureView::BuildTransport { origin: origin@, credential_id: credential_id@ }),
        (Configuring::Configured { origin, credential_id })@ == (ConfigureView::Configured {
            origin: origin@,
            credential_id: credential_id@,
        }),
        (Configuring::Failed { message: text })@ == (ConfigureView::Failed { message: text@ }),
        (ConfigureEvent::Vault { opened: flag })@ == (ConfigureEventView::Vault { opened: flag }),
        (ConfigureEvent::Credential { token: Some(text) })@ == (ConfigureEventView::Credential {
            token: Some(text@),
        }),
        (ConfigureEvent::Credential { token: None })@ == (ConfigureEventView::Credential {
            token: None,
        }),
        (ConfigureEvent::Core { built: flag })@ == (ConfigureEventView::Core { built: flag }),
        (ConfigureEvent::Transport { built: flag })@ == (ConfigureEventView::Transport {
            built: flag,
        }),
{
}

/// The mathematical value of a state of forgetting holds all that it holds.
pub proof fn law_nothing_of_forgetting_is_left_out(text: String)
    ensures
        Forgetting::Cancel@ == ForgetView::Cancel,
        Forgetting::LookUpSession@ == ForgetView::LookUpSession,
        Forgetting::ClearCore@ == ForgetView::ClearCore,
        Forgetting::OpenVault@ == ForgetView::OpenVault,
        Forgetting::DeleteCredential@ == ForgetView::DeleteCredential,
        Forgetting::Done@ == ForgetView::Done,
        (Forgetting::Failed { message: text })@ == (ForgetView::Failed { message: text@ }),
{
}

/// Credentials are kept under one name in the vault.
pub proof fn law_the_name_in_the_vault()
    ensures
        CREDENTIAL_SERVICE@ == "org.viptv.smartcast"@,
        CREDENTIAL_ID_LIMIT == 128,
{
}

} // verus!
