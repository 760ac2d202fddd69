//! Which site clients the all-sites ingest mode runs.
use vstd::prelude::*;

use crate::error::RoobuError;
use crate::sites::{SiteClient, SiteCredentials, SiteKind, build_client, build_client_ok, client_kind};
use crate::sites::kemono::kemono_client_ok;
use crate::sites::common::{clone_opt, opt_view};
use crate::text::owned;

verus! {

/// A copy of the credentials.
pub fn copy_credentials(c: &SiteCredentials) -> (r: SiteCredentials)
    ensures
        opt_view(r.rule34_api_key) == opt_view(c.rule34_api_key),
        opt_view(r.rule34_user_id) == opt_view(c.rule34_user_id),
        opt_view(r.e621_login) == opt_view(c.e621_login),
        opt_view(r.e621_api_key) == opt_view(c.e621_api_key),
        opt_view(r.gelbooru_api_key) == opt_view(c.gelbooru_api_key),
        opt_view(r.gelbooru_user_id) == opt_view(c.gelbooru_user_id),
        opt_view(r.kemono_session) == opt_view(c.kemono_session),
        opt_view(r.kemono_base_url) == opt_view(c.kemono_base_url),
{
    SiteCredentials {
        rule34_api_key: clone_opt(&c.rule34_api_key),
        rule34_user_id: clone_opt(&c.rule34_user_id),
        e621_login: clone_opt(&c.e621_login),
        e621_api_key: clone_opt(&c.e621_api_key),
        gelbooru_api_key: clone_opt(&c.gelbooru_api_key),
        gelbooru_user_id: clone_opt(&c.gelbooru_user_id),
        kemono_session: clone_opt(&c.kemono_session),
        kemono_base_url: clone_opt(&c.kemono_base_url),
    }
}

/// The message when only one of the two rule34 credentials is set.
pub open spec fn msg_rule34_partial() -> Seq<char> {
    "RULE34_API_KEY and RULE34_USER_ID must both be set to include rule34 in all-sites mode"@
}

/// `client` is configured from the credentials `c`: rule34 with its API key
/// and user ID, e621 with its login and API key (both or neither), kemono
/// with its normalized session and base URL; the other sites carry nothing.
pub open spec fn carries_credentials(c: SiteCredentials, client: SiteClient) -> bool {
    match client {
        SiteClient::Rule34(r) => opt_view(c.rule34_api_key) == Some(r.api_key@) && opt_view(c.rule34_user_id)
            == Some(r.user_id@),
        SiteClient::E621(e) => opt_view(e.login) == opt_view(c.e621_login) && opt_view(e.api_key) == opt_view(
            c.e621_api_key,
        ),
        SiteClient::Kemono(k) => kemono_client_ok(c.kemono_session, c.kemono_base_url, k),
        SiteClient::Gelbooru(g) => opt_view(c.gelbooru_api_key) == Some(g.api_key@) && opt_view(
            c.gelbooru_user_id,
        ) == Some(g.user_id@),
        _ => true,
    }
}

/// A client built from a copy of the credentials carries the credentials
/// themselves.
proof fn lemma_copy_carries(kind: SiteKind, c: SiteCredentials, copy: SiteCredentials, client: SiteClient)
    requires
        opt_view(copy.rule34_api_key) == opt_view(c.rule34_api_key),
        opt_view(copy.rule34_user_id) == opt_view(c.rule34_user_id),
        opt_view(copy.e621_login) == opt_view(c.e621_login),
        opt_view(copy.e621_api_key) == opt_view(c.e621_api_key),
        opt_view(copy.gelbooru_api_key) == opt_view(c.gelbooru_api_key),
        opt_view(copy.gelbooru_user_id) == opt_view(c.gelbooru_user_id),
        opt_view(copy.kemono_session) == opt_view(c.kemono_session),
        opt_view(copy.kemono_base_url) == opt_view(c.kemono_base_url),
        build_client_ok(kind, copy, client),
    ensures
        carries_credentials(c, client),
{
}

/// The clients of the all-sites mode, in order: rule34 when both of its
/// credentials are set, then e621, safebooru, xbooru and kemono. Also says
/// whether rule34 was left out for want of both credentials.
pub fn build_all_sites_clients(c: &SiteCredentials) -> (r: Result<(Vec<SiteClient>, bool), RoobuError>)
    ensures
        (c.rule34_api_key is Some) != (c.rule34_user_id is Some) ==> (r matches Err(RoobuError::MissingCredential(m))
            && m@ == msg_rule34_partial()),
        (c.rule34_api_key is Some) == (c.rule34_user_id is Some) && (c.e621_login is Some) != (c.e621_api_key is Some)
            ==> (r matches Err(RoobuError::Api(m)) && m@ == crate::sites::e621::msg_e621_partial()),
        (c.rule34_api_key is Some) == (c.rule34_user_id is Some) && (c.e621_login is Some) == (c.e621_api_key is Some)
            ==> r is Ok,
        r matches Ok((clients, skipped)) ==> {
            &&& skipped == (c.rule34_api_key is None && c.rule34_user_id is None)
            &&& Seq::new(clients@.len(), |i: int| client_kind(clients@[i])) == (if skipped {
                seq![SiteKind::E621, SiteKind::Safebooru, SiteKind::Xbooru, SiteKind::Kemono]
            } else {
                seq![SiteKind::Rule34, SiteKind::E621, SiteKind::Safebooru, SiteKind::Xbooru, SiteKind::Kemono]
            })
            &&& forall|i: int| 0 <= i < clients@.len() ==> carries_credentials(*c, #[trigger] clients@[i])
        },
{
    let mut clients: Vec<SiteClient> = Vec::new();
    let skipped;
    match (&c.rule34_api_key, &c.rule34_user_id) {
        (Some(_), Some(_)) => {
            let creds = copy_credentials(c);
            let ghost copy = creds;
            match build_client(SiteKind::Rule34, creds) {
                Ok(client) => {
                    proof {
                        lemma_copy_carries(SiteKind::Rule34, *c, copy, client);
                    }
                    clients.push(client);
                },
                Err(e) => return Err(e),
            }
            skipped = false;
        },
        (None, None) => {
            skipped = true;
        },
        _ => {
            return Err(RoobuError::MissingCredential(owned(
                "RULE34_API_KEY and RULE34_USER_ID must both be set to include rule34 in all-sites mode",
            )));
        },
    }
    let creds = copy_credentials(c);
    let ghost copy = creds;
    match build_client(SiteKind::E621, creds) {
        Ok(client) => {
            proof {
                lemma_copy_carries(SiteKind::E621, *c, copy, client);
            }
            clients.push(client);
        },
        Err(e) => return Err(e),
    }
    let creds = copy_credentials(c);
    let ghost copy = creds;
    match build_client(SiteKind::Safebooru, creds) {
        Ok(client) => {
            proof {
                lemma_copy_carries(SiteKind::Safebooru, *c, copy, client);
            }
            clients.push(client);
        },
        Err(e) => return Err(e),
    }
    let creds = copy_credentials(c);
    let ghost copy = creds;
    match build_client(SiteKind::Xbooru, creds) {
        Ok(client) => {
            proof {
                lemma_copy_carries(SiteKind::Xbooru, *c, copy, client);
            }
            clients.push(client);
        },
        Err(e) => return Err(e),
    }
    let creds = copy_credentials(c);
    let ghost copy = creds;
    match build_client(SiteKind::Kemono, creds) {
        Ok(client) => {
            proof {
                lemma_copy_carries(SiteKind::Kemono, *c, copy, client);
            }
            clients.push(client);
        },
        Err(e) => return Err(e),
    }
    proof {
        let ks = Seq::new(clients@.len(), |i: int| client_kind(clients@[i]));
        if skipped {
            assert(ks =~= seq![SiteKind::E621, SiteKind::Safebooru, SiteKind::Xbooru, SiteKind::Kemono]);
        } else {
            assert(ks =~= seq![SiteKind::Rule34, SiteKind::E621, SiteKind::Safebooru, SiteKind::Xbooru, SiteKind::Kemono]);
        }
    }
    Ok((clients, skipped))
}

} // verus!
