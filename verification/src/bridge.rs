//! The decisions of the chat bridge between Discord channels and the game
//! servers: which Discord messages go to which server, and how a server's
//! message is posted through the channel's webhook.
use vstd::prelude::*;
use crate::discord_config::{RouteEntry, Routes};
use crate::events::ServerMessage;
use crate::text::{chars_of, concat_strings, decimal_chars, decimal_text, push_char, remove_char,
    string_from_chars, without_char, lemma_without_char_removes_all, all_digits, digits_value,
    law_decimal_text_denotes_number, law_without_char_is_filter, law_without_char_keeps_other_text};

verus! {

/// The data that the bot's commands share.
pub struct DiscordData {}

/// What the bridge reads of a Discord message.
pub struct DiscordMessage {
    pub channel_id: u64,
    pub author_id: u64,
    pub author_is_bot: bool,
    pub author_name: String,
    /// `None` where the author is not a guild member; else the member's nickname.
    pub member_nick: Option<Option<String>>,
    pub author_avatar_url: Option<String>,
    /// The author's shared user id, the one user id across all services.
    pub shared_user_id: Option<String>,
    pub content: String,
}

/// A message for the queue of one service.
pub struct QueuedMessage {
    pub service: String,
    pub data: ServerMessage,
}

/// The service name under which a Discord user's messages travel:
/// `<user id>@discord`.
pub open spec fn discord_service_name(author_id: u64) -> Seq<char> {
    decimal_text(author_id as nat) + seq!['@', 'd', 'i', 's', 'c', 'o', 'r', 'd']
}

/// The name shown for the author: the member's nickname where the author is a
/// member (which may be unset), else the account name.
pub open spec fn shown_username(msg: &DiscordMessage) -> Option<Seq<char>> {
    match msg.member_nick {
        Some(nick) => nick.deep_view(),
        None => Some(msg.author_name@),
    }
}

/// Whether some route listens on the message's channel.
pub open spec fn channel_is_routed(routes: Map<Seq<char>, RouteEntry>, channel_id: u64) -> bool {
    exists|k: Seq<char>| #[trigger] routes.contains_key(k) && routes[k].channel_id == channel_id
}

/// Turns a Discord message into a message for the game server whose route
/// listens on its channel. Messages of bots and of channels that no route
/// listens on are not forwarded.
pub fn forward_discord_message(routes: &Routes, msg: DiscordMessage) -> (r: Option<QueuedMessage>)
    ensures
        r is None <==> (msg.author_is_bot || !channel_is_routed(routes@, msg.channel_id)),
        r matches Some(q) ==> {
            &&& routes@.contains_key(q.service@)
            &&& routes@[q.service@].channel_id == msg.channel_id
            &&& q.data.message@ == msg.content@
            &&& q.data.service@ == discord_service_name(msg.author_id)
            &&& q.data.user.deep_view() == msg.shared_user_id.deep_view()
            &&& q.data.username.deep_view() == shown_username(&msg)
            &&& q.data.avatar_url.deep_view() == msg.author_avatar_url.deep_view()
        },
{
    let found = routes.find_by_channel(msg.channel_id);
    match found {
        None => None,
        Some((service, _route)) => {
            if msg.author_is_bot {
                return None;
            }
            let ghost shown = shown_username(&msg);
            let id_digits = string_from_chars(&decimal_chars(msg.author_id as u128));
            proof {
                reveal_strlit("@discord");
            }
            let author_service = concat_strings(id_digits.as_str(), "@discord");
            let username = match msg.member_nick {
                Some(nick) => nick,
                None => Some(msg.author_name),
            };
            assert(username.deep_view() == shown);
            Some(
                QueuedMessage {
                    service: service.clone(),
                    data: ServerMessage {
                        message: msg.content,
                        service: author_service,
                        user: msg.shared_user_id,
                        username,
                        avatar_url: msg.author_avatar_url,
                    },
                },
            )
        },
    }
}

/// What is posted through a webhook.
pub struct WebhookMessage {
    pub content: String,
    pub username: String,
    pub avatar_url: String,
}

/// The posted text: the message without backticks, set between two
/// backticks.
pub open spec fn webhook_content(message: Seq<char>) -> Seq<char> {
    seq!['`'] + without_char(message, '`') + seq!['`']
}

/// The name a webhook post shows: the message's username, or "no name".
pub open spec fn webhook_username(username: Option<Seq<char>>) -> Seq<char> {
    match username {
        Some(u) => u,
        None => seq!['n', 'o', ' ', 'n', 'a', 'm', 'e'],
    }
}

/// The avatar a webhook post shows: the message's avatar, or none.
pub open spec fn webhook_avatar(avatar: Option<Seq<char>>) -> Seq<char> {
    match avatar {
        Some(a) => a,
        None => Seq::empty(),
    }
}

/// The webhook post for a game server's message.
pub fn webhook_message(msg: &ServerMessage) -> (r: WebhookMessage)
    ensures
        r.content@ == webhook_content(msg.message@),
        r.username@ == webhook_username(msg.username.deep_view()),
        r.avatar_url@ == webhook_avatar(msg.avatar_url.deep_view()),
{
    let chars = chars_of(msg.message.as_str());
    let kept = remove_char(&chars, '`');
    let mut content = String::new();
    push_char(&mut content, '`');
    let body = string_from_chars(&kept);
    let content = concat_strings(content.as_str(), body.as_str());
    let mut content = content;
    push_char(&mut content, '`');
    assert(content@ =~= webhook_content(msg.message@));
    let username = match &msg.username {
        Some(u) => u.clone(),
        None => {
            proof {
                reveal_strlit("no name");
            }
            "no name".to_owned()
        },
    };
    let avatar_url = match &msg.avatar_url {
        Some(a) => a.clone(),
        None => String::new(),
    };
    WebhookMessage { content, username, avatar_url }
}

/// The service that sent a queued message: its application id, or the empty
/// name where it has none.
pub open spec fn sender_name(app_id: Option<Seq<char>>) -> Seq<char> {
    match app_id {
        Some(a) => a,
        None => Seq::empty(),
    }
}

/// Where the webhook for a post comes from.
pub enum WebhookSource {
    /// The webhook kept under this key.
    Cached { key: String },
    /// A webhook fetched from `url`, to be kept under `store_under`; where a
    /// webhook is kept under that key already (`keep_existing`), that one is
    /// used and the fetched one dropped.
    Fetch { url: String, store_under: String, keep_existing: bool },
}

/// A post to make through a webhook.
pub struct Delivery {
    pub source: WebhookSource,
    pub message: WebhookMessage,
}

/// The keys under which webhooks are kept between posts. A key occurs once.
pub struct WebhookCache {
    keys: Vec<String>,
}

impl WebhookCache {
    #[verifier::type_invariant]
    closed spec fn keys_distinct(&self) -> bool {
        forall|i: int, j: int|
            0 <= i < self.keys@.len() && 0 <= j < self.keys@.len() && i != j ==> self.keys@[i]@
                != self.keys@[j]@
    }
}

impl View for WebhookCache {
    type V = Set<Seq<char>>;

    closed spec fn view(&self) -> Set<Seq<char>> {
        Set::new(|k: Seq<char>| exists|i: int| 0 <= i < self.keys@.len() && self.keys@[i]@ == k)
    }
}

impl WebhookCache {
    /// No webhook kept.
    pub fn new() -> (r: WebhookCache)
        ensures
            r@ == Set::<Seq<char>>::empty(),
    {
        let r = WebhookCache { keys: Vec::new() };
        assert(r@ =~= Set::<Seq<char>>::empty());
        r
    }

    /// Whether a webhook is kept under `key`.
    pub fn contains(&self, key: &str) -> (r: bool)
        ensures
            r == self@.contains(key@),
    {
        let wanted = key.to_owned();
        let mut i: usize = 0;
        while i < self.keys.len()
            invariant
                i <= self.keys.len(),
                wanted@ == key@,
                forall|j: int| 0 <= j < i ==> self.keys@[j]@ != key@,
            decreases self.keys.len() - i,
        {
            if self.keys[i] == wanted {
                return true;
            }
            i = i + 1;
        }
        false
    }

    /// Notes that a webhook is now kept under `key` (an existing one stays).
    pub fn record(&mut self, key: &str)
        ensures
            final(self)@ == old(self)@.insert(key@),
    {
        proof {
            use_type_invariant(&*self);
        }
        if self.contains(key) {
            assert(self@ =~= old(self)@.insert(key@));
            return;
        }
        let ghost old_keys = self.keys@;
        let mut keys: Vec<String> = Vec::new();
        std::mem::swap(&mut keys, &mut self.keys);
        keys.push(key.to_owned());
        assert(keys@ == old_keys.push(keys@[old_keys.len() as int]));
        assert forall|j: int| 0 <= j < old_keys.len() implies old_keys[j]@ != key@ by {
            if old_keys[j]@ == key@ {
                assert(old(self)@.contains(key@));
            }
        }
        assert(forall|i: int, j: int|
            0 <= i < keys@.len() && 0 <= j < keys@.len() && i != j ==> keys@[i]@ != keys@[j]@);
        self.keys = keys;
        assert(self@ =~= old(self)@.insert(key@)) by {
            assert forall|k: Seq<char>| self@.contains(k) == old(self)@.insert(key@).contains(k) by {
                if old(self)@.contains(k) {
                    let j = choose|j: int| 0 <= j < old_keys.len() && old_keys[j]@ == k;
                    assert(self.keys@[j]@ == k);
                }
                if k == key@ {
                    assert(self.keys@[old_keys.len() as int]@ == k);
                }
            }
        }
    }

    /// The post to make for a queued message from the service `app_id`:
    /// `None` where that service has no route. The webhook is looked up by
    /// the route's webhook URL; one that is fetched is kept under the name of
    /// the service.
    pub fn plan_delivery(&self, routes: &Routes, app_id: &Option<String>, msg: &ServerMessage) -> (r:
        Option<Delivery>)
        ensures
            r is None <==> !routes@.contains_key(sender_name(app_id.deep_view())),
            r matches Some(d) ==> {
                let url = routes@[sender_name(app_id.deep_view())].webhook_url@;
                &&& d.message.content@ == webhook_content(msg.message@)
                &&& d.message.username@ == webhook_username(msg.username.deep_view())
                &&& d.message.avatar_url@ == webhook_avatar(msg.avatar_url.deep_view())
                &&& match d.source {
                    WebhookSource::Cached { key } => self@.contains(url) && key@ == url,
                    WebhookSource::Fetch { url: fetch_url, store_under, keep_existing } => {
                        &&& !self@.contains(url)
                        &&& fetch_url@ == url
                        &&& store_under@ == sender_name(app_id.deep_view())
                        &&& keep_existing == self@.contains(sender_name(app_id.deep_view()))
                    },
                }
            },
    {
        let sender = match app_id {
            Some(a) => a.clone(),
            None => String::new(),
        };
        let route = match routes.get(sender.as_str()) {
            Some(route) => route,
            None => return None,
        };
        let url = route.webhook_url.clone();
        let message = webhook_message(msg);
        let source = if self.contains(url.as_str()) {
            WebhookSource::Cached { key: url }
        } else {
            let keep_existing = self.contains(sender.as_str());
            WebhookSource::Fetch { url, store_under: sender, keep_existing }
        };
        Some(Delivery { source, message })
    }
}

/// A game server's message cannot leave the inline code span it is posted
/// in: the posted text starts and ends with a backtick and holds no other.
pub proof fn law_webhook_content_is_one_code_span(message: Seq<char>)
    ensures
        webhook_content(message).len() >= 2,
        webhook_content(message)[0] == '`',
        webhook_content(message).last() == '`',
        forall|i: int|
            0 < i < webhook_content(message).len() - 1 ==> #[trigger] webhook_content(message)[i]
                != '`',
{
    let body = without_char(message, '`');
    lemma_without_char_removes_all(message, '`');
    let w = webhook_content(message);
    assert forall|i: int| 0 < i < w.len() - 1 implies #[trigger] w[i] != '`' by {
        assert(w[i] == body[i - 1]);
    }
}

/// The service name of a forwarded message names its author: it is a string
/// of decimal digits whose value is the author's id, followed by `@discord`;
/// so different authors travel under different service names.
pub proof fn law_service_name_names_author(author_id: u64, other_id: u64)
    ensures
        ({
            let name = discord_service_name(author_id);
            let k = name.len() - 8;
            &&& k >= 1
            &&& name.skip(k) == seq!['@', 'd', 'i', 's', 'c', 'o', 'r', 'd']
            &&& all_digits(name.take(k))
            &&& digits_value(name.take(k)) == author_id
        }),
        author_id != other_id ==> discord_service_name(author_id) != discord_service_name(other_id),
{
    law_decimal_text_denotes_number(author_id as nat);
    law_decimal_text_denotes_number(other_id as nat);
    let name = discord_service_name(author_id);
    let d = crate::text::decimal_text(author_id as nat);
    assert(name.take(d.len() as int) =~= d);
    assert(name.skip(d.len() as int) =~= seq!['@', 'd', 'i', 's', 'c', 'o', 'r', 'd']);
    if author_id != other_id {
        let other = discord_service_name(other_id);
        let e = crate::text::decimal_text(other_id as nat);
        assert(other.take(e.len() as int) =~= e);
        if name == other {
            assert(d.len() == e.len());
            assert(d =~= e);
        }
    }
}

/// A posted message keeps every character of the game server's message but
/// the backticks, in order, between two backticks; a message without
/// backticks is posted as it is, between two backticks.
pub proof fn law_webhook_content_keeps_message(message: Seq<char>)
    ensures
        webhook_content(message) == seq!['`'] + message.filter(|x: char| x != '`') + seq!['`'],
        (forall|i: int| 0 <= i < message.len() ==> message[i] != '`') ==> webhook_content(message)
            == seq!['`'] + message + seq!['`'],
{
    law_without_char_is_filter(message, '`');
    if forall|i: int| 0 <= i < message.len() ==> message[i] != '`' {
        law_without_char_keeps_other_text(message, '`');
    }
}

} // verus!
