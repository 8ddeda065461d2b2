//! The decisions of the login command: what to ask for, what to refuse, and
//! which way to authenticate; and the texts it answers with.
use vstd::prelude::*;
use crate::auth::credentials::{Credentials, default_service_url};
use crate::cli::LoginCommand;
use crate::error::{AppError, error_label};
use crate::strings::{strip_all_prefix, trim_ws};
use crate::text::{chars_of, owned, push_str, push_decimal, string_from_chars, decimal, str_eq, opt_view};

verus! {

/// A question for the user (MCP elicitation): which field, and the prompt.
pub struct LoginElicitation {
    pub field: String,
    pub message: String,
}

/// A login request as the CLI and the MCP tool make it.
pub struct LoginRequest {
    pub payload: LoginCommand,
    pub interactive: bool,
}

/// What a login step answers: a message, and possibly a question.
pub struct LoginOutcome {
    pub message: String,
    pub elicitation: Option<LoginElicitation>,
}

/// The handle as given after trimming white space and removing leading
/// `@`s; `None` when nothing is left.
pub open spec fn normalized_handle(h: Option<Seq<char>>) -> Option<Seq<char>> {
    match h {
        None => None,
        Some(s) => {
            let n = strip_all_prefix(trim_ws(s), "@"@);
            if n.len() == 0 {
                None
            } else {
                Some(n)
            }
        },
    }
}

/// Trims a handle and removes its leading `@`s; an empty result becomes `None`.
pub fn normalize_handle(handle: &mut Option<String>)
    ensures
        opt_view(*final(handle)) == normalized_handle(opt_view(*old(handle))),
{
    if let Some(h) = handle {
        let cs = chars_of(h.as_str());
        let t = crate::strings::trim_chars(cs.as_slice());
        let at = chars_of("@");
        let n = crate::bluesky::uri::strip_prefixes(t.as_slice(), at.as_slice());
        if n.len() == 0 {
            *handle = None;
        } else {
            *handle = Some(string_from_chars(n.as_slice()));
        }
    }
}

/// One line of the account list.
pub open spec fn account_line(account: Seq<char>, default: Option<Seq<char>>) -> Seq<char> {
    "  • @"@ + account + if default == Some(account) {
        " (default)"@
    } else {
        Seq::empty()
    } + "\n"@
}

/// The lines of the account list, in order.
pub open spec fn account_lines(accounts: Seq<Seq<char>>, default: Option<Seq<char>>) -> Seq<char>
    decreases accounts.len(),
{
    if accounts.len() == 0 {
        Seq::empty()
    } else {
        account_lines(accounts.drop_last(), default) + account_line(accounts.last(), default)
    }
}

/// The list of stored accounts, the default one marked.
pub open spec fn account_list_text(accounts: Seq<Seq<char>>, default: Option<Seq<char>>) -> Seq<char> {
    if accounts.len() == 0 {
        "No accounts stored. Use 'autoreply login' to add an account."@
    } else {
        "Authenticated accounts ("@ + decimal(accounts.len()) + "):\n"@ + account_lines(accounts, default)
    }
}

/// Lists the stored accounts, marking the default one.
pub fn format_account_list(accounts: &[String], default: Option<&str>) -> (r: String)
    ensures
        r@ == account_list_text(crate::bluesky::records::views(accounts@), match default {
            Some(d) => Some(d@),
            None => None,
        }),
{
    let ghost dv = match default {
        Some(d) => Some(d@),
        None => None::<Seq<char>>,
    };
    let ghost names = crate::bluesky::records::views(accounts@);
    if accounts.len() == 0 {
        return owned("No accounts stored. Use 'autoreply login' to add an account.");
    }
    let mut output = owned("Authenticated accounts (");
    push_decimal(&mut output, accounts.len() as u64);
    push_str(&mut output, "):\n");
    let ghost head = output@;
    let mut i: usize = 0;
    while i < accounts.len()
        invariant
            i <= accounts@.len(),
            names == crate::bluesky::records::views(accounts@),
            dv == (match default {
                Some(d) => Some(d@),
                None => None::<Seq<char>>,
            }),
            output@ == head + account_lines(names.take(i as int), dv),
        decreases accounts@.len() - i,
    {
        assert(names.take(i + 1).drop_last() =~= names.take(i as int));
        let is_default = match default {
            Some(d) => str_eq(accounts[i].as_str(), d),
            None => false,
        };
        push_str(&mut output, "  • @");
        push_str(&mut output, accounts[i].as_str());
        if is_default {
            push_str(&mut output, " (default)");
        }
        push_str(&mut output, "\n");
        assert(names.take(i + 1).last() == accounts@[i as int]@);
        assert(is_default == (dv == Some(accounts@[i as int]@)));
        i = i + 1;
        assert(output@ =~= head + account_lines(names.take(i as int), dv));
    }
    assert(names.take(accounts@.len() as int) =~= names);
    output
}

/// App-password credentials for a handle, for the given service or the default one.
pub fn build_credentials(handle: &str, password: &str, service: Option<&str>) -> (c: Credentials)
    ensures
        c.identifier@ == handle@,
        c.password@ == password@,
        c.service@ == match service {
            Some(s) => s@,
            None => default_service_url(),
        },
{
    match service {
        Some(service_url) => Credentials::with_service(handle, password, service_url),
        None => Credentials::new(handle, password),
    }
}

/// What to do with a login request that names no subcommand.
pub enum LoginPlan {
    /// Answer at once, asking the user for what is missing.
    Ask(LoginOutcome),
    /// Refuse the request.
    Refuse(AppError),
    /// Log in with an app password.
    AppPassword { handle: String, credentials: Credentials },
    /// Log in through OAuth, with the handle when one was given.
    OAuth { handle: Option<String>, service: Option<String> },
}

/// The refusal for an app-password login without a password when the
/// client cannot be asked for one.
pub open spec fn no_prompt_message() -> Seq<char> {
    "# Login via app password failed: the client does not support interactive prompts (MCP elicitation). Please choose one of these options:\n\n1. Use OAuth (strongly recommended): call login with your handle only, e.g.: {\"handle\": \"your.handle.bsky.social\"}\n\n2. Provide app password up-front: call login with password, e.g.: {\"handle\": \"your.handle.bsky.social\", \"password\": \"your-app-password\"}\n\nIMPORTANT Security Warning:\n- Do NOT use your main BlueSky account password\n- Create an app password at: https://bsky.app/settings/app-passwords\n- OAuth is the most secure option and is strongly preferred"@
}

/// Whether `p` asks the user for `field` with `prompt`, saying `message`.
pub open spec fn asks(p: LoginPlan, message: Seq<char>, field: Seq<char>, prompt: Seq<char>) -> bool {
    &&& p is Ask
    &&& p->Ask_0.message@ == message
    &&& p->Ask_0.elicitation is Some
    &&& p->Ask_0.elicitation->Some_0.field@ == field
    &&& p->Ask_0.elicitation->Some_0.message@ == prompt
}

/// Whether `p` refuses with invalid input described by `message`.
pub open spec fn refuses(p: LoginPlan, message: Seq<char>) -> bool {
    p matches LoginPlan::Refuse(AppError::InvalidInput(m)) && m@ == message
}

/// Decides how to log in: with a password given, an app-password login
/// (asking for, or refusing, a missing handle or an empty password); without
/// one, OAuth.
pub fn plan_login(request: &LoginRequest) -> (r: LoginPlan)
    ensures
        ({
            let h = normalized_handle(opt_view(request.payload.handle));
            match request.payload.password {
                Some(pwd) => {
                    if !(h matches Some(x) && trim_ws(x).len() > 0) {
                        if request.interactive {
                            asks(r, "Handle is required for app password authentication"@, "handle"@,
                                "Enter Bluesky handle (e.g., alice.bsky.social)"@)
                        } else {
                            refuses(r, "Handle is required for app password authentication"@)
                        }
                    } else if pwd@.len() == 0 {
                        if request.interactive {
                            asks(r, "Password required"@, "password"@, "App password for @"@ + h->Some_0)
                        } else {
                            refuses(r, no_prompt_message())
                        }
                    } else {
                        r matches LoginPlan::AppPassword { handle, credentials } && handle@ == h->Some_0
                            && credentials.identifier@ == h->Some_0 && credentials.password@ == pwd@
                            && credentials.service@ == match request.payload.service {
                                Some(s) => s@,
                                None => default_service_url(),
                            }
                    }
                },
                None => r matches LoginPlan::OAuth { handle, service } && opt_view(handle) == h
                    && opt_view(service) == opt_view(request.payload.service),
            }
        }),
{
    let mut handle: Option<String> = match &request.payload.handle {
        Some(h) => Some(owned(h.as_str())),
        None => None,
    };
    normalize_handle(&mut handle);
    let service: Option<String> = match &request.payload.service {
        Some(s) => Some(owned(s.as_str())),
        None => None,
    };
    match &request.payload.password {
        Some(pwd) => {
            let handle_str = match handle {
                Some(h) => {
                    let t = crate::strings::trim(h.as_str());
                    if t.as_str().is_empty() {
                        None
                    } else {
                        Some(h)
                    }
                },
                None => None,
            };
            let handle_str = match handle_str {
                Some(h) => h,
                None => {
                    if request.interactive {
                        return LoginPlan::Ask(LoginOutcome {
                            message: owned("Handle is required for app password authentication"),
                            elicitation: Some(LoginElicitation {
                                field: owned("handle"),
                                message: owned("Enter Bluesky handle (e.g., alice.bsky.social)"),
                            }),
                        });
                    }
                    return LoginPlan::Refuse(
                        AppError::invalid_input("Handle is required for app password authentication"),
                    );
                },
            };
            if pwd.as_str().is_empty() {
                if request.interactive {
                    let mut prompt = owned("App password for @");
                    push_str(&mut prompt, handle_str.as_str());
                    return LoginPlan::Ask(LoginOutcome {
                        message: owned("Password required"),
                        elicitation: Some(LoginElicitation { field: owned("password"), message: prompt }),
                    });
                }
                return LoginPlan::Refuse(AppError::invalid_input(
                    "# Login via app password failed: the client does not support interactive prompts (MCP elicitation). Please choose one of these options:\n\n1. Use OAuth (strongly recommended): call login with your handle only, e.g.: {\"handle\": \"your.handle.bsky.social\"}\n\n2. Provide app password up-front: call login with password, e.g.: {\"handle\": \"your.handle.bsky.social\", \"password\": \"your-app-password\"}\n\nIMPORTANT Security Warning:\n- Do NOT use your main BlueSky account password\n- Create an app password at: https://bsky.app/settings/app-passwords\n- OAuth is the most secure option and is strongly preferred",
                ));
            }
            let service_ref: Option<&str> = match &service {
                Some(s) => Some(s.as_str()),
                None => None,
            };
            let credentials = build_credentials(handle_str.as_str(), pwd.as_str(), service_ref);
            LoginPlan::AppPassword { handle: handle_str, credentials }
        },
        None => LoginPlan::OAuth { handle, service },
    }
}

/// What a failed OAuth login answers: interactively, the failure and a
/// request for an app password (for the handle, or "your account");
/// otherwise the error itself.
pub fn oauth_failure_outcome(handle: Option<&str>, err: AppError, interactive: bool) -> (r: Result<
    LoginOutcome,
    AppError,
>)
    ensures
        interactive ==> {
            &&& r is Ok
            &&& r->Ok_0.message@ == "OAuth authentication failed: "@ + error_label(err) + err.detail()
            &&& r->Ok_0.elicitation is Some
            &&& r->Ok_0.elicitation->Some_0.field@ == "password"@
            &&& r->Ok_0.elicitation->Some_0.message@ == "OAuth failed. Enter app password for @"@ + match handle {
                Some(h) => h@,
                None => "your account"@,
            }
        },
        !interactive ==> r == Err::<LoginOutcome, AppError>(err),
{
    if interactive {
        let mut message = owned("OAuth authentication failed: ");
        let m = err.message();
        push_str(&mut message, m.as_str());
        let mut prompt = owned("OAuth failed. Enter app password for @");
        match handle {
            Some(h) => push_str(&mut prompt, h),
            None => push_str(&mut prompt, "your account"),
        }
        Ok(LoginOutcome {
            message,
            elicitation: Some(LoginElicitation { field: owned("password"), message: prompt }),
        })
    } else {
        Err(err)
    }
}

/// The account `login delete` removes: the one named, else the default
/// one; with neither, the request is refused.
pub fn account_to_delete(handle: Option<&str>, default: Option<&str>) -> (r: Result<String, AppError>)
    ensures
        match handle {
            Some(h) => r matches Ok(s) && s@ == h@,
            None => match default {
                Some(d) => r matches Ok(s) && s@ == d@,
                None => r matches Err(AppError::InvalidInput(m)) && m@ == "No default account set. Specify --handle"@,
            },
        },
{
    match handle {
        Some(h) => Ok(owned(h)),
        None => match default {
            Some(d) => Ok(owned(d)),
            None => Err(AppError::InvalidInput(owned("No default account set. Specify --handle"))),
        },
    }
}

/// The answer to `login default`: the account is now the default.
pub fn default_set_message(handle: &str) -> (m: String)
    ensures
        m@ == "✓ Set @"@ + handle@ + " as default account"@,
{
    let mut m = owned("✓ Set @");
    push_str(&mut m, handle);
    push_str(&mut m, " as default account");
    m
}

/// The answer to `login delete`: the account is gone.
pub fn deleted_message(handle: &str) -> (m: String)
    ensures
        m@ == "✓ Deleted account @"@ + handle@,
{
    let mut m = owned("✓ Deleted account @");
    push_str(&mut m, handle);
    m
}

} // verus!
