//! Catalog discovery pagination: the bounded, fail-closed assembly of one upstream model
//! catalog from its pages, independent of how a page is fetched.
//!
//! A catalog is returned whole or not at all: a repeated cursor, too many models or too many
//! pages refuse it, and models are keyed by their exact upstream identifier, the last page's
//! entry winning, listed in identifier order.
use vstd::prelude::*;
use crate::errors::{ErrorScope, GatewayError, GatewayErrorCode};
use crate::text::chars_of;
use crate::transport::extend_bytes;

verus! {

/// Pages one discovery may read before it is refused.
pub const MAX_CATALOG_PAGES: usize = 100;

/// Distinct models one catalog may hold.
pub const MAX_CATALOG_MODELS: usize = 10000;

/// Bytes one compatible catalog page may hold.
pub const MAX_COMPATIBLE_CATALOG_PAGE_BYTES: usize = 2097152;

/// Bytes one Kiro catalog page may hold.
pub const MAX_KIRO_CATALOG_PAGE_BYTES: usize = 1048576;

/// The failure one catalog page's reply status stands for: none for 2xx; 401 and 403 fail the
/// credential, 429 is the provider's rate limit, and any other status is a protocol failure.
pub open spec fn catalog_status_failure(status: u16) -> Option<GatewayError> {
    if 200 <= status <= 299 {
        None
    } else if status == 401 {
        Some(GatewayError { code: GatewayErrorCode::CredentialUnauthorized, scope: ErrorScope::Credential })
    } else if status == 403 {
        Some(GatewayError { code: GatewayErrorCode::CredentialForbidden, scope: ErrorScope::Credential })
    } else if status == 429 {
        Some(GatewayError { code: GatewayErrorCode::ProviderRateLimited, scope: ErrorScope::Provider })
    } else {
        Some(GatewayError { code: GatewayErrorCode::UpstreamProtocolError, scope: ErrorScope::Provider })
    }
}

/// Returns the failure a catalog page's reply status stands for.
pub fn catalog_status_error(status: u16) -> (r: Option<GatewayError>)
    ensures
        r == catalog_status_failure(status),
{
    if 200 <= status && status <= 299 {
        None
    } else if status == 401 {
        Some(GatewayError { code: GatewayErrorCode::CredentialUnauthorized, scope: ErrorScope::Credential })
    } else if status == 403 {
        Some(GatewayError { code: GatewayErrorCode::CredentialForbidden, scope: ErrorScope::Credential })
    } else if status == 429 {
        Some(GatewayError { code: GatewayErrorCode::ProviderRateLimited, scope: ErrorScope::Provider })
    } else {
        Some(GatewayError { code: GatewayErrorCode::UpstreamProtocolError, scope: ErrorScope::Provider })
    }
}

/// Appends one chunk of a catalog page held under `limit` bytes; a chunk that would exceed it
/// is refused and the page left as it was.
pub fn append_catalog_chunk(page: &mut Vec<u8>, chunk: &[u8], limit: usize) -> (r: bool)
    ensures
        r == (old(page)@.len() + chunk@.len() <= limit),
        r ==> final(page)@ == old(page)@ + chunk@,
        !r ==> final(page)@ == old(page)@,
{
    if chunk.len() > limit || page.len() > limit - chunk.len() {
        return false;
    }
    extend_bytes(page, chunk);
    true
}

/// How a catalog read authenticates, as its credential gives it.
#[derive(Clone, Debug)]
pub enum CatalogAuth {
    /// An Anthropic-compatible credential: the header it authorizes with.
    Anthropic { header_name: String, header_value: String },
    /// A bearer token, with the device identifier of a Kimi device login, if any.
    Bearer { token: String, kimi_device_id: Option<String> },
}

/// The device headers a Kimi device login sends, as its provider fixes them.
#[derive(Clone, Debug)]
pub struct KimiDeviceProfile {
    pub user_agent: String,
    pub platform: String,
    pub device_name: String,
    pub device_model: String,
}

/// Whether every character of `s` is whitespace, as `str::trim` strips it.
pub open spec fn blank(s: Seq<char>) -> bool {
    forall|i: int| 0 <= i < s.len() ==> crate::text::is_unicode_whitespace(#[trigger] s[i])
}

/// The headers of a catalog page request: JSON is accepted; an Anthropic credential adds its
/// authorization header and the API version; a bearer adds its authorization, and a Kimi
/// device login its device headers. A blank device identifier is a protocol failure.
pub open spec fn catalog_headers(auth: CatalogAuth, kimi: KimiDeviceProfile) -> Option<Seq<(Seq<char>, Seq<char>)>> {
    let accept = seq![("accept"@, "application/json"@)];
    match auth {
        CatalogAuth::Anthropic { header_name, header_value } => Some(
            accept + seq![(header_name@, header_value@), ("anthropic-version"@, "2023-06-01"@)],
        ),
        CatalogAuth::Bearer { token, kimi_device_id } => {
            let bearer = accept + seq![("authorization"@, "Bearer "@ + token@)];
            match kimi_device_id {
                None => Some(bearer),
                Some(d) => if blank(d@) {
                    None
                } else {
                    Some(
                        bearer + seq![
                            ("user-agent"@, kimi.user_agent@),
                            ("x-msh-platform"@, kimi.platform@),
                            ("x-msh-device-name"@, kimi.device_name@),
                            ("x-msh-device-model"@, kimi.device_model@),
                            ("x-msh-device-id"@, d@),
                        ],
                    )
                },
            }
        },
    }
}

/// A Kimi device login sends accept, bearer, then its device headers, each under its own name
/// and carrying its own profile field: the agent as `user-agent`, the platform, the device
/// name as `x-msh-device-name`, the device model as `x-msh-device-model` and the device
/// identifier; a bearer without a device login sends only accept and the bearer, and an
/// Anthropic credential its own authorization header and the API version.
pub proof fn lemma_kimi_device_headers_carry_their_own_fields(
    token: String,
    device_id: String,
    kimi: KimiDeviceProfile,
    header_name: String,
    header_value: String,
)
    ensures
        catalog_headers(CatalogAuth::Anthropic { header_name, header_value }, kimi) == Some(
            seq![
                ("accept"@, "application/json"@),
                (header_name@, header_value@),
                ("anthropic-version"@, "2023-06-01"@),
            ],
        ),
        ({
            let auth = CatalogAuth::Bearer { token, kimi_device_id: Some(device_id) };
            !blank(device_id@) ==> (catalog_headers(auth, kimi) matches Some(h) && h.len() == 7
                && h[0] == ("accept"@, "application/json"@) && h[1] == ("authorization"@, "Bearer "@ + token@)
                && h[2] == ("user-agent"@, kimi.user_agent@) && h[3] == ("x-msh-platform"@, kimi.platform@)
                && h[4] == ("x-msh-device-name"@, kimi.device_name@) && h[5] == ("x-msh-device-model"@,
                kimi.device_model@) && h[6] == ("x-msh-device-id"@, device_id@))
        }),
        blank(device_id@) ==> catalog_headers(CatalogAuth::Bearer { token, kimi_device_id: Some(device_id) }, kimi)
            is None,
        catalog_headers(CatalogAuth::Bearer { token, kimi_device_id: None }, kimi) == Some(
            seq![("accept"@, "application/json"@), ("authorization"@, "Bearer "@ + token@)],
        ),
{
}

/// The header pairs of `h` as text.
pub open spec fn header_view(h: Seq<(String, String)>) -> Seq<(Seq<char>, Seq<char>)> {
    h.map_values(|p: (String, String)| (p.0@, p.1@))
}

/// Returns whether every character of `s` is whitespace.
fn is_blank(s: &str) -> (r: bool)
    ensures
        r == blank(s@),
{
    let cs = chars_of(s);
    let mut i: usize = 0;
    while i < cs.len()
        invariant
            0 <= i <= cs@.len(),
            cs@ == s@,
            forall|j: int| 0 <= j < i ==> crate::text::is_unicode_whitespace(#[trigger] cs@[j]),
        decreases cs.len() - i,
    {
        if !crate::text::is_whitespace(cs[i]) {
            return false;
        }
        i = i + 1;
    }
    true
}

/// Builds the headers of a catalog page request, or the protocol failure of a blank Kimi
/// device identifier.
pub fn catalog_request_headers(auth: &CatalogAuth, kimi: &KimiDeviceProfile) -> (r: Result<
    Vec<(String, String)>,
    GatewayError,
>)
    ensures
        match catalog_headers(*auth, *kimi) {
            Some(h) => r matches Ok(v) && header_view(v@) == h,
            None => r == Err::<Vec<(String, String)>, GatewayError>(
                GatewayError { code: GatewayErrorCode::UpstreamProtocolError, scope: ErrorScope::Provider },
            ),
        },
{
    let mut headers: Vec<(String, String)> = Vec::new();
    headers.push((String::from_str("accept"), String::from_str("application/json")));
    match auth {
        CatalogAuth::Anthropic { header_name, header_value } => {
            headers.push((header_name.clone(), header_value.clone()));
            headers.push((String::from_str("anthropic-version"), String::from_str("2023-06-01")));
        },
        CatalogAuth::Bearer { token, kimi_device_id } => {
            let mut value = String::from_str("Bearer ");
            value.append(token.as_str());
            headers.push((String::from_str("authorization"), value));
            match kimi_device_id {
                None => {},
                Some(d) => {
                    if is_blank(d.as_str()) {
                        return Err(
                            GatewayError { code: GatewayErrorCode::UpstreamProtocolError, scope: ErrorScope::Provider },
                        );
                    }
                    headers.push((String::from_str("user-agent"), kimi.user_agent.clone()));
                    headers.push((String::from_str("x-msh-platform"), kimi.platform.clone()));
                    headers.push((String::from_str("x-msh-device-name"), kimi.device_name.clone()));
                    headers.push((String::from_str("x-msh-device-model"), kimi.device_model.clone()));
                    headers.push((String::from_str("x-msh-device-id"), d.clone()));
                },
            }
        },
    }
    proof {
        reveal_strlit("accept");
        reveal_strlit("application/json");
        reveal_strlit("anthropic-version");
        reveal_strlit("2023-06-01");
        reveal_strlit("Bearer ");
        reveal_strlit("authorization");
        reveal_strlit("user-agent");
        reveal_strlit("x-msh-platform");
        reveal_strlit("x-msh-device-name");
        reveal_strlit("x-msh-device-model");
        reveal_strlit("x-msh-device-id");
        assert(header_view(headers@) =~= catalog_headers(*auth, *kimi)->0);
    }
    Ok(headers)
}

/// Whether `a` orders before `b`: character by character, a proper prefix first. On UTF-8
/// text this is the byte order `str` sorts by.
pub open spec fn lex_lt(a: Seq<char>, b: Seq<char>) -> bool
    decreases a.len(),
{
    if a.len() == 0 {
        b.len() > 0
    } else if b.len() == 0 {
        false
    } else if a[0] != b[0] {
        (a[0] as u32) < (b[0] as u32)
    } else {
        lex_lt(a.drop_first(), b.drop_first())
    }
}

/// The order is irreflexive and asymmetric.
pub proof fn lemma_lex_asymmetric(a: Seq<char>, b: Seq<char>)
    ensures
        lex_lt(a, b) ==> !lex_lt(b, a),
        !lex_lt(a, a),
    decreases a.len(),
{
    if a.len() > 0 && b.len() > 0 && a[0] == b[0] {
        lemma_lex_asymmetric(a.drop_first(), b.drop_first());
    }
    if a.len() > 0 {
        lemma_lex_asymmetric(a.drop_first(), a.drop_first());
    }
}

/// Any two texts are ordered one way or equal.
pub proof fn lemma_lex_trichotomy(a: Seq<char>, b: Seq<char>)
    ensures
        lex_lt(a, b) || a == b || lex_lt(b, a),
    decreases a.len(),
{
    if a.len() == 0 && b.len() == 0 {
        assert(a =~= b);
    } else if a.len() > 0 && b.len() > 0 && a[0] == b[0] {
        lemma_lex_trichotomy(a.drop_first(), b.drop_first());
        if a.drop_first() == b.drop_first() {
            assert(a.len() == a.drop_first().len() + 1 && b.len() == b.drop_first().len() + 1);
            assert(a.len() == b.len());
            assert forall|j: int| 0 <= j < a.len() implies a[j] == b[j] by {
                if j > 0 {
                    assert(a[j] == a.drop_first()[j - 1]);
                    assert(b[j] == b.drop_first()[j - 1]);
                }
            }
            assert(a =~= b);
        }
    } else if a.len() > 0 && b.len() > 0 {
        vstd::utf8::char_u32_cast(a[0], a[0] as u32);
        vstd::utf8::char_u32_cast(b[0], b[0] as u32);
        assert((a[0] as u32) != (b[0] as u32));
    }
}

/// The order is transitive.
pub proof fn lemma_lex_transitive(a: Seq<char>, b: Seq<char>, c: Seq<char>)
    requires
        lex_lt(a, b),
        lex_lt(b, c),
    ensures
        lex_lt(a, c),
    decreases a.len(),
{
    if a.len() > 0 && b.len() > 0 && c.len() > 0 && a[0] == b[0] && b[0] == c[0] {
        lemma_lex_transitive(a.drop_first(), b.drop_first(), c.drop_first());
    }
}

/// Returns whether `a` orders before `b`.
pub fn key_less(a: &str, b: &str) -> (r: bool)
    ensures
        r == lex_lt(a@, b@),
{
    let x = chars_of(a);
    let y = chars_of(b);
    let mut i: usize = 0;
    assert(x@.skip(0) =~= x@ && y@.skip(0) =~= y@);
    while i < x.len() && i < y.len() && x[i] == y[i]
        invariant
            0 <= i <= x@.len(),
            i <= y@.len(),
            lex_lt(x@, y@) == lex_lt(x@.skip(i as int), y@.skip(i as int)),
        decreases x.len() - i,
    {
        assert(x@.skip(i as int).drop_first() =~= x@.skip(i + 1));
        assert(y@.skip(i as int).drop_first() =~= y@.skip(i + 1));
        i = i + 1;
    }
    if i == x.len() {
        i < y.len()
    } else if i == y.len() {
        false
    } else {
        (x[i] as u32) < (y[i] as u32)
    }
}

/// Entries strictly ordered by key, so each key occurs once.
pub open spec fn keys_sorted<M>(e: Seq<(Seq<char>, M)>) -> bool {
    forall|p: int, q: int| 0 <= p < q < e.len() ==> lex_lt(#[trigger] e[p].0, #[trigger] e[q].0)
}

/// Whether some entry has key `key`.
pub open spec fn has_key<M>(e: Seq<(Seq<char>, M)>, key: Seq<char>) -> bool {
    exists|j: int| 0 <= j < e.len() && (#[trigger] e[j]).0 == key
}

/// The value of key `key`.
pub open spec fn value_of<M>(e: Seq<(Seq<char>, M)>, key: Seq<char>) -> M {
    e[choose|j: int| 0 <= j < e.len() && (#[trigger] e[j]).0 == key].1
}

/// In sorted entries, the entry of a key is the only one with it.
proof fn lemma_sorted_unique<M>(e: Seq<(Seq<char>, M)>, j: int)
    requires
        keys_sorted(e),
        0 <= j < e.len(),
    ensures
        has_key(e, e[j].0),
        value_of(e, e[j].0) == e[j].1,
{
    let k = choose|i: int| 0 <= i < e.len() && (#[trigger] e[i]).0 == e[j].0;
    if k < j {
        lemma_lex_asymmetric(e[k].0, e[j].0);
    } else if j < k {
        lemma_lex_asymmetric(e[j].0, e[k].0);
    }
}

/// Sorted entries after inserting `(k, v)`: `k` now maps to `v`, every other key keeps its
/// value, and no other key appears.
pub open spec fn inserted<M>(old: Seq<(Seq<char>, M)>, new: Seq<(Seq<char>, M)>, k: Seq<char>, v: M) -> bool {
    &&& keys_sorted(new)
    &&& forall|key: Seq<char>| #[trigger] has_key(new, key) == (key == k || has_key(old, key))
    &&& value_of(new, k) == v
    &&& forall|key: Seq<char>| key != k && has_key(old, key) ==> #[trigger] value_of(new, key) == value_of(old, key)
}

/// The string keys of the entries.
pub open spec fn entry_view<M>(e: Seq<(String, M)>) -> Seq<(Seq<char>, M)> {
    e.map_values(|p: (String, M)| (p.0@, p.1))
}

/// Inserts `(k, v)` into entries sorted by key, replacing the entry of `k` if there is one.
fn insert_sorted<M>(entries: &mut Vec<(String, M)>, k: String, v: M)
    requires
        keys_sorted(entry_view(old(entries)@)),
    ensures
        inserted(entry_view(old(entries)@), entry_view(final(entries)@), k@, v),
{
    let ghost old_e = entry_view(entries@);
    let mut i: usize = 0;
    while i < entries.len() && key_less(entries[i].0.as_str(), k.as_str())
        invariant
            0 <= i <= entries@.len(),
            entries@ == old(entries)@,
            old_e == entry_view(entries@),
            keys_sorted(old_e),
            forall|j: int| 0 <= j < i ==> lex_lt(#[trigger] old_e[j].0, k@),
        decreases entries.len() - i,
    {
        i = i + 1;
    }
    let ghost kk = k@;
    if i < entries.len() && crate::json::str_eq(entries[i].0.as_str(), k.as_str()) {
        entries.set(i, (k, v));
        proof {
            let new_e = entry_view(entries@);
            assert(new_e =~= old_e.update(i as int, (kk, v)));
            assert forall|j: int| 0 <= j < new_e.len() implies (#[trigger] new_e[j]).0 == old_e[j].0 by {
                if j == i {
                    assert(old_e[j].0 == kk);
                }
            }
            assert forall|p: int, q: int| 0 <= p < q < new_e.len() implies lex_lt(#[trigger] new_e[p].0, #[trigger] new_e[q].0) by {
                assert(new_e[p].0 == old_e[p].0 && new_e[q].0 == old_e[q].0);
            }
            assert forall|key: Seq<char>| #[trigger] has_key(new_e, key) == (key == kk || has_key(old_e, key)) by {
                if has_key(old_e, key) {
                    let j = choose|j: int| 0 <= j < old_e.len() && (#[trigger] old_e[j]).0 == key;
                    assert(new_e[j].0 == key);
                }
                if has_key(new_e, key) {
                    let j = choose|j: int| 0 <= j < new_e.len() && (#[trigger] new_e[j]).0 == key;
                    assert(old_e[j].0 == key);
                }
                if key == kk {
                    assert(new_e[i as int].0 == key);
                }
            }
            lemma_sorted_unique(new_e, i as int);
            assert forall|key: Seq<char>| key != kk && has_key(old_e, key) implies #[trigger] value_of(new_e, key) == value_of(old_e, key) by {
                let j = choose|j: int| 0 <= j < old_e.len() && (#[trigger] old_e[j]).0 == key;
                lemma_sorted_unique(old_e, j);
                lemma_sorted_unique(new_e, j);
            }
        }
    } else {
        proof {
            if i < entries.len() {
                lemma_lex_trichotomy(old_e[i as int].0, kk);
            }
        }
        entries.insert(i, (k, v));
        proof {
            let new_e = entry_view(entries@);
            assert(new_e =~= old_e.insert(i as int, (kk, v)));
            old_e.insert_ensures(i as int, (kk, v));
            assert forall|p: int, q: int| 0 <= p < q < new_e.len() implies lex_lt(#[trigger] new_e[p].0, #[trigger] new_e[q].0) by {
                if q == i {
                    assert(new_e[p] == old_e[p]);
                } else if p == i {
                    assert(new_e[q] == old_e[q - 1]);
                    if q - 1 > i {
                        lemma_lex_transitive(kk, old_e[i as int].0, old_e[q - 1].0);
                    }
                } else if p < i && q > i {
                    assert(new_e[q] == old_e[q - 1]);
                    if q - 1 > i {
                        lemma_lex_transitive(old_e[p].0, kk, old_e[i as int].0);
                        lemma_lex_transitive(old_e[p].0, old_e[i as int].0, old_e[q - 1].0);
                    } else {
                        lemma_lex_transitive(old_e[p].0, kk, old_e[i as int].0);
                    }
                } else if q < i {
                    assert(new_e[p] == old_e[p] && new_e[q] == old_e[q]);
                } else {
                    assert(new_e[p] == old_e[p - 1] && new_e[q] == old_e[q - 1]);
                }
            }
            assert forall|key: Seq<char>| #[trigger] has_key(new_e, key) == (key == kk || has_key(old_e, key)) by {
                if has_key(old_e, key) {
                    let j = choose|j: int| 0 <= j < old_e.len() && (#[trigger] old_e[j]).0 == key;
                    if j < i {
                        assert(new_e[j].0 == key);
                    } else {
                        assert(new_e[j + 1].0 == key);
                    }
                }
                if key == kk {
                    assert(new_e[i as int].0 == key);
                }
                if has_key(new_e, key) && key != kk {
                    let j = choose|j: int| 0 <= j < new_e.len() && (#[trigger] new_e[j]).0 == key;
                    if j < i {
                        assert(old_e[j].0 == key);
                    } else if j > i {
                        assert(old_e[j - 1].0 == key);
                    }
                }
            }
            lemma_sorted_unique(new_e, i as int);
            assert forall|key: Seq<char>| key != kk && has_key(old_e, key) implies #[trigger] value_of(new_e, key) == value_of(old_e, key) by {
                let j = choose|j: int| 0 <= j < old_e.len() && (#[trigger] old_e[j]).0 == key;
                lemma_sorted_unique(old_e, j);
                if j < i {
                    lemma_sorted_unique(new_e, j);
                } else {
                    lemma_sorted_unique(new_e, j + 1);
                }
            }
        }
    }
}

/// Whether some entry of `page` has key `key`.
pub open spec fn page_has<M>(page: Seq<(String, M)>, key: Seq<char>) -> bool
    decreases page.len(),
{
    page.len() > 0 && (page.last().0@ == key || page_has(page.drop_last(), key))
}

/// The value the last entry of `page` with key `key` carries.
pub open spec fn page_value<M>(page: Seq<(String, M)>, key: Seq<char>) -> M
    decreases page.len(),
{
    if page.len() > 0 && page.last().0@ != key {
        page_value(page.drop_last(), key)
    } else {
        page.last().1
    }
}

/// Sorted entries `new` hold `old` with every entry of `page` inserted in order: a key of the
/// page maps to its last value there, every other key keeps its value.
pub open spec fn merged<M>(old: Seq<(Seq<char>, M)>, new: Seq<(Seq<char>, M)>, page: Seq<(String, M)>) -> bool {
    &&& keys_sorted(new)
    &&& forall|key: Seq<char>| #[trigger] has_key(new, key) == (has_key(old, key) || page_has(page, key))
    &&& forall|key: Seq<char>| #[trigger] page_has(page, key) ==> value_of(new, key) == page_value(page, key)
    &&& forall|key: Seq<char>| !page_has(page, key) && has_key(old, key) ==> #[trigger] value_of(new, key)
        == value_of(old, key)
}

/// How one accepted page leaves the discovery.
#[derive(Clone, Copy, Debug, PartialEq, Eq, Structural)]
pub enum PageOutcome {
    /// Fetch the next page at the new cursor.
    Continue,
    /// The catalog is complete.
    Complete,
    /// The catalog is refused: too many models, a repeated cursor, or too many pages.
    Refused,
}

/// The assembly state of one catalog discovery.
pub struct CatalogPager<M> {
    entries: Vec<(String, M)>,
    seen: Vec<String>,
    pages: usize,
    cursor: Option<String>,
    done: bool,
}

/// The assembly state as a model: the models so far by identifier, the cursors seen, the
/// pages accepted, the cursor of the next page, and whether the discovery ended.
pub struct PagerView<M> {
    pub entries: Seq<(Seq<char>, M)>,
    pub seen: Seq<Seq<char>>,
    pub pages: nat,
    pub cursor: Option<Seq<char>>,
    pub done: bool,
}

impl<M> View for CatalogPager<M> {
    type V = PagerView<M>;

    closed spec fn view(&self) -> PagerView<M> {
        PagerView {
            entries: entry_view(self.entries@),
            seen: self.seen@.map_values(|s: String| s@),
            pages: self.pages as nat,
            cursor: match self.cursor {
                Some(c) => Some(c@),
                None => None,
            },
            done: self.done,
        }
    }
}

impl<M> CatalogPager<M> {
    /// The entries stay sorted by identifier and the page count within its bound.
    pub closed spec fn wf(&self) -> bool {
        keys_sorted(entry_view(self.entries@)) && self.pages < MAX_CATALOG_PAGES
    }

    /// A discovery before its first page.
    pub fn new() -> (p: Self)
        ensures
            p.wf(),
            p@.entries == Seq::<(Seq<char>, M)>::empty(),
            p@.seen == Seq::<Seq<char>>::empty(),
            p@.pages == 0,
            p@.cursor is None,
            !p@.done,
    {
        let p = CatalogPager { entries: Vec::new(), seen: Vec::new(), pages: 0, cursor: None, done: false };
        proof {
            assert(p@.entries =~= Seq::<(Seq<char>, M)>::empty());
            assert(p@.seen =~= Seq::<Seq<char>>::empty());
        }
        p
    }

    /// The cursor the next page is fetched at; `None` for the first page.
    pub fn cursor(&self) -> (c: Option<&String>)
        ensures
            (match c {
                Some(s) => Some(s@),
                None => None,
            }) == self@.cursor,
    {
        match &self.cursor {
            Some(c) => Some(c),
            None => None,
        }
    }

    /// Merges one fetched page and decides whether to continue, complete or refuse.
    pub fn accept_page(&mut self, page: Vec<(String, M)>, next: Option<String>) -> (r: PageOutcome)
        requires
            old(self).wf(),
            !old(self)@.done,
        ensures
            final(self).wf(),
            merged(old(self)@.entries, final(self)@.entries, page@),
            r == if final(self)@.entries.len() > MAX_CATALOG_MODELS {
                PageOutcome::Refused
            } else {
                match next {
                    None => PageOutcome::Complete,
                    Some(c) => if old(self)@.seen.contains(c@) || old(self)@.pages + 1
                        >= MAX_CATALOG_PAGES {
                        PageOutcome::Refused
                    } else {
                        PageOutcome::Continue
                    },
                }
            },
            final(self)@.done == !(r is Continue),
            r is Continue ==> final(self)@.pages == old(self)@.pages + 1 && (next matches Some(c)
                && final(self)@.cursor == Some(c@) && final(self)@.seen == old(self)@.seen.push(c@)),
    {
        let ghost old_e = entry_view(self.entries@);
        let ghost page_v = page@;
        let mut page = page;
        let mut rest: Vec<(String, M)> = Vec::new();
        // Insert in page order: take the entries from the back onto a reversed stack first.
        while page.len() > 0
            invariant
                page_v == page@ + rest@.reverse(),
                *self == *old(self),
            decreases page.len(),
        {
            let item = page.pop().unwrap();
            let ghost before = rest@;
            rest.push(item);
            proof {
                assert(rest@.reverse() =~= seq![item] + before.reverse());
            }
        }
        proof {
            assert(page_v =~= rest@.reverse());
        }
        let mut t: usize = 0;
        let n = rest.len();
        while rest.len() > 0
            invariant
                page_v == page_v.take(t as int) + rest@.reverse(),
                t + rest@.len() == n,
                n == page_v.len(),
                self.pages == old(self).pages,
                self.seen@ == old(self).seen@,
                self.cursor == old(self).cursor,
                self.done == old(self).done,
                old(self).pages < MAX_CATALOG_PAGES,
                old_e == entry_view(old(self).entries@),
                keys_sorted(entry_view(self.entries@)),
                merged(old_e, entry_view(self.entries@), page_v.take(t as int)),
            decreases rest.len(),
        {
            let ghost cur = entry_view(self.entries@);
            let ghost rest_before = rest@;
            let (k, v) = rest.pop().unwrap();
            let ghost kk = k@;
            let ghost vv = v;
            proof {
                assert(rest_before.reverse()[0] == rest_before.last());
                assert(page_v[t as int] == rest_before.last());
            }
            insert_sorted(&mut self.entries, k, v);
            proof {
                let nxt = entry_view(self.entries@);
                let pre = page_v.take(t as int);
                let post = page_v.take(t + 1);
                assert(post.drop_last() =~= pre);
                assert(post.last() == page_v[t as int]);
                assert(rest@.reverse() =~= rest_before.reverse().drop_first());
                assert(page_v =~= post + rest@.reverse());
                assert forall|key: Seq<char>| #[trigger] has_key(nxt, key) == (has_key(old_e, key) || page_has(post, key)) by {
                    assert(has_key(nxt, key) == (key == kk || has_key(cur, key)));
                }
                assert forall|key: Seq<char>| #[trigger] page_has(post, key) implies value_of(nxt, key) == page_value(post, key) by {
                    if key != kk {
                        assert(page_has(pre, key));
                        assert(has_key(cur, key));
                    }
                }
                assert forall|key: Seq<char>| !page_has(post, key) && has_key(old_e, key) implies #[trigger] value_of(nxt, key) == value_of(old_e, key) by {
                    assert(!page_has(pre, key));
                    assert(has_key(cur, key));
                }
            }
            t = t + 1;
        }
        proof {
            assert(page_v.take(t as int) =~= page_v);
        }
        if self.entries.len() > MAX_CATALOG_MODELS {
            self.done = true;
            return PageOutcome::Refused;
        }
        match next {
            None => {
                self.done = true;
                PageOutcome::Complete
            },
            Some(c) => {
                let repeated = {
                    let mut i: usize = 0;
                    let mut found = false;
                    while i < self.seen.len()
                        invariant
                            0 <= i <= self.seen@.len(),
                            found == exists|j: int| 0 <= j < i && (#[trigger] self.seen@[j])@ == c@,
                        decreases self.seen.len() - i,
                    {
                        if crate::json::str_eq(self.seen[i].as_str(), c.as_str()) {
                            found = true;
                        }
                        i = i + 1;
                    }
                    proof {
                        let m = self.seen@.map_values(|s: String| s@);
                        if found {
                            let j = choose|j: int| 0 <= j < i && (#[trigger] self.seen@[j])@ == c@;
                            assert(m[j] == c@);
                        }
                        if m.contains(c@) {
                            let j = choose|j: int| 0 <= j < m.len() && m[j] == c@;
                            assert(self.seen@[j]@ == c@);
                        }
                    }
                    found
                };
                if repeated || self.pages + 1 >= MAX_CATALOG_PAGES {
                    self.done = true;
                    return PageOutcome::Refused;
                }
                let ghost seen_before = self.seen@;
                self.seen.push(c.clone());
                proof {
                    assert(self.seen@.map_values(|s: String| s@) =~= seen_before.map_values(|s: String| s@).push(c@));
                }
                self.cursor = Some(c);
                self.pages = self.pages + 1;
                PageOutcome::Continue
            },
        }
    }

    /// The models of a completed catalog, in identifier order.
    pub fn into_models(self) -> (r: Vec<M>)
        ensures
            r@ == self@.entries.map_values(|e: (Seq<char>, M)| e.1),
    {
        let ghost vals = self.entries@.map_values(|p: (String, M)| p.1);
        proof {
            assert(vals =~= self@.entries.map_values(|e: (Seq<char>, M)| e.1));
        }
        let mut entries = self.entries;
        let mut stack: Vec<M> = Vec::new();
        while entries.len() > 0
            invariant
                vals == entries@.map_values(|p: (String, M)| p.1) + stack@.reverse(),
            decreases entries.len(),
        {
            let ghost eb = entries@;
            let ghost sb = stack@;
            let (_, v) = entries.pop().unwrap();
            stack.push(v);
            proof {
                assert(eb.map_values(|p: (String, M)| p.1) =~= entries@.map_values(|p: (String, M)| p.1).push(v));
                assert(stack@.reverse() =~= seq![v] + sb.reverse());
                assert(vals =~= entries@.map_values(|p: (String, M)| p.1) + stack@.reverse());
            }
        }
        let mut out: Vec<M> = Vec::new();
        proof {
            assert(entries@.map_values(|p: (String, M)| p.1) =~= Seq::<M>::empty());
        }
        while stack.len() > 0
            invariant
                vals == out@ + stack@.reverse(),
            decreases stack.len(),
        {
            let ghost sb = stack@;
            let v = stack.pop().unwrap();
            out.push(v);
            proof {
                assert(sb.reverse() =~= seq![v] + stack@.reverse());
                assert(vals =~= out@ + stack@.reverse());
            }
        }
        proof {
            assert(out@ + stack@.reverse() =~= out@);
        }
        out
    }
}

} // verus!
