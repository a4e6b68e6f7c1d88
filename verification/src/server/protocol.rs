//! Constants of the Discord RPC protocol, the READY payload, and the
//! validation of activity fields.
use vstd::prelude::*;
use crate::json::{json_view, Json, JsonView};
use crate::text::{chars_of, decimal, decimal_chars, push_str, string_from_chars};

verus! {

/// Error code for an invalid invite.
pub const INVALID_INVITE: u32 = 4011;
/// Error code for an invalid guild template.
pub const INVALID_GUILD_TEMPLATE: u32 = 4017;
/// The code a connections callback is answered with.
pub const CONNECTION_CALLBACK: u32 = 1000;
/// The activity flag of an instance.
pub const INSTANCE: u32 = 1;
/// Activity type numbers.
pub const PLAYING: u8 = 0;
pub const STREAMING: u8 = 1;
pub const LISTENING: u8 = 2;
pub const WATCHING: u8 = 3;
pub const CUSTOM: u8 = 4;
pub const COMPETING: u8 = 5;
/// Length limits of activity fields, in bytes, and the number of buttons.
pub const MAX_NAME_LENGTH: usize = 128;
pub const MAX_DETAILS_LENGTH: usize = 128;
pub const MAX_STATE_LENGTH: usize = 128;
pub const MAX_BUTTONS: usize = 2;
pub const MAX_BUTTON_LABEL_LENGTH: usize = 32;

/// The Discord configuration sent with READY.
pub open spec fn discord_config_view() -> JsonView {
    JsonView::Object(seq![
        ("cdn_host"@, JsonView::Str("cdn.discordapp.com"@)),
        ("api_endpoint"@, JsonView::Str("//discord.com/api"@)),
        ("environment"@, JsonView::Str("production"@)),
    ])
}

/// The user the server presents itself as.
pub open spec fn mock_user_view() -> JsonView {
    JsonView::Object(seq![
        ("id"@, JsonView::Str("1045800378228281345"@)),
        ("username"@, JsonView::Str("arrpc"@)),
        ("discriminator"@, JsonView::Str("0"@)),
        ("global_name"@, JsonView::Str("arRPC"@)),
        ("avatar"@, JsonView::Str("cfefa4d9839fb4bdf030f91c2a13e95c"@)),
        ("avatar_decoration_data"@, JsonView::Null),
        ("bot"@, JsonView::Bool(false)),
        ("flags"@, JsonView::Number("0"@)),
        ("premium_type"@, JsonView::Number("0"@)),
    ])
}

/// The READY payload: protocol version 1, the configuration and the user.
pub open spec fn ready_payload_view() -> JsonView {
    JsonView::Object(seq![
        ("v"@, JsonView::Number("1"@)),
        ("config"@, discord_config_view()),
        ("user"@, mock_user_view()),
    ])
}

/// The Discord configuration sent with READY.
pub fn discord_config() -> (r: Json)
    ensures
        json_view(r) == discord_config_view(),
{
    let mut f: Vec<(String, Json)> = Vec::new();
    f.push(Json::member("cdn_host", Json::text("cdn.discordapp.com")));
    f.push(Json::member("api_endpoint", Json::text("//discord.com/api")));
    f.push(Json::member("environment", Json::text("production")));
    let r = Json::object(f);
    assert(json_view(r)->Object_0 =~= discord_config_view()->Object_0);
    r
}

/// A JSON number with the digits of `n`.
fn number(n: u64) -> (r: Json)
    ensures
        json_view(r) == JsonView::Number(decimal(n as nat)),
{
    Json::unsigned(n)
}

/// The user the server presents itself as.
pub fn mock_user() -> (r: Json)
    ensures
        json_view(r) == mock_user_view(),
{
    proof {
        reveal_strlit("0");
        assert(decimal(0u64 as nat) =~= "0"@);
    }
    let mut f: Vec<(String, Json)> = Vec::new();
    f.push(Json::member("id", Json::text("1045800378228281345")));
    f.push(Json::member("username", Json::text("arrpc")));
    f.push(Json::member("discriminator", Json::text("0")));
    f.push(Json::member("global_name", Json::text("arRPC")));
    f.push(Json::member("avatar", Json::text("cfefa4d9839fb4bdf030f91c2a13e95c")));
    f.push(Json::member("avatar_decoration_data", Json::Null));
    f.push(Json::member("bot", Json::Bool(false)));
    f.push(Json::member("flags", number(0)));
    f.push(Json::member("premium_type", number(0)));
    let r = Json::object(f);
    assert(json_view(r)->Object_0 =~= mock_user_view()->Object_0);
    r
}

/// The payload of the READY event.
pub fn create_ready_payload() -> (r: Json)
    ensures
        json_view(r) == ready_payload_view(),
{
    proof {
        reveal_strlit("1");
        assert(decimal(1u64 as nat) =~= "1"@);
    }
    let mut f: Vec<(String, Json)> = Vec::new();
    f.push(Json::member("v", number(1)));
    f.push(Json::member("config", discord_config()));
    f.push(Json::member("user", mock_user()));
    let r = Json::object(f);
    assert(json_view(r)->Object_0 =~= ready_payload_view()->Object_0);
    r
}

/// Why an activity field was refused.
pub enum ValidationFailure {
    /// The field is longer than allowed.
    TooLong { field_name: String, max_length: usize },
    /// A button url is no http(s) url.
    NotHttpUrl,
}

impl ValidationFailure {
    /// The message describing the failure.
    pub fn message(&self) -> (r: String)
        ensures
            match self {
                ValidationFailure::TooLong { field_name, max_length } =>
                    r@ == field_name@ + " exceeds maximum length of "@ + decimal(*max_length as nat),
                ValidationFailure::NotHttpUrl => r@ == "Button URL must start with http:// or https://"@,
            },
    {
        match self {
            ValidationFailure::TooLong { field_name, max_length } => {
                let mut m = string_from_chars(chars_of(field_name.as_str()).as_slice());
                push_str(&mut m, " exceeds maximum length of ");
                let digits = string_from_chars(decimal_chars(*max_length as u128).as_slice());
                push_str(&mut m, digits.as_str());
                m
            },
            ValidationFailure::NotHttpUrl => string_from_chars(chars_of("Button URL must start with http:// or https://").as_slice()),
        }
    }
}

/// Accepts a field of at most `max_length` bytes.
pub fn validate_activity_field(field: &str, max_length: usize, field_name: &str) -> (r: Result<(), ValidationFailure>)
    ensures
        field.len() <= max_length ==> r is Ok,
        field.len() > max_length ==> (r matches Err(ValidationFailure::TooLong { field_name: n, max_length: m })
            && n@ == field_name@ && m == max_length),
{
    if field.len() > max_length {
        Err(ValidationFailure::TooLong { field_name: string_from_chars(chars_of(field_name).as_slice()), max_length })
    } else {
        Ok(())
    }
}

/// `s` begins with `p`.
pub open spec fn has_prefix(s: Seq<char>, p: Seq<char>) -> bool {
    p.len() <= s.len() && s.take(p.len() as int) == p
}

/// Whether `s` begins with `p`.
fn starts_with(s: &str, p: &str) -> (r: bool)
    ensures
        r == has_prefix(s@, p@),
{
    let sv = chars_of(s);
    let pv = chars_of(p);
    if pv.len() > sv.len() {
        return false;
    }
    let n = pv.len();
    for i in 0..n
        invariant
            n == pv@.len(),
            n <= sv@.len(),
            sv@ == s@,
            pv@ == p@,
            forall|k: int| 0 <= k < i ==> sv@[k] == pv@[k],
    {
        if sv[i] != pv[i] {
            assert(sv@.take(n as int)[i as int] != pv@[i as int]);
            return false;
        }
    }
    assert(sv@.take(n as int) =~= pv@);
    true
}

/// Accepts a button url that starts with `http://` or `https://`.
pub fn validate_button_url(url: &str) -> (r: Result<(), ValidationFailure>)
    ensures
        (has_prefix(url@, "http://"@) || has_prefix(url@, "https://"@)) ==> r is Ok,
        !(has_prefix(url@, "http://"@) || has_prefix(url@, "https://"@)) ==> r matches Err(ValidationFailure::NotHttpUrl),
{
    if !starts_with(url, "http://") && !starts_with(url, "https://") {
        Err(ValidationFailure::NotHttpUrl)
    } else {
        Ok(())
    }
}

} // verus!
