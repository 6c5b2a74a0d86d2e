use vstd::prelude::*;
use crate::text::same_text;

verus! {

/// What `url::Url::parse(base)` followed by `join(path)` yields, as text;
/// `None` where either step refuses its input.
pub uninterp spec fn joined_url(base: Seq<char>, path: Seq<char>) -> Option<Seq<char>>;

/// Relies on url's `Url::parse` of the base and `Url::join` of the path
/// (resolution of a reference against a base, as in a browser), and on the
/// `Display` of the resulting `Url`.
#[verifier::external_body]
fn join_url(base: &str, path: &str) -> (r: Option<String>)
    ensures
        match joined_url(base@, path@) {
            Some(u) => r is Some && r->0@ == u,
            None => r is None,
        },
{
    match url::Url::parse(base) {
        Ok(b) => match b.join(path) {
            Ok(u) => Some(u.to_string()),
            Err(_) => None,
        },
        Err(_) => None,
    }
}

/// The root address of each known site.
pub open spec fn site_base(website: Seq<char>) -> Option<Seq<char>> {
    if website == "id"@ {
        Some("https://id.ustc.edu.cn"@)
    } else if website == "edu_system"@ {
        Some("https://jw.ustc.edu.cn"@)
    } else if website == "young"@ {
        Some("https://young.ustc.edu.cn"@)
    } else {
        None
    }
}

/// The address of `path` on one of the known sites (`id`, `edu_system`,
/// `young`); nothing where the path cannot be resolved against the site.
pub fn generate_url(website: &str, path: &str) -> (r: Option<String>)
    requires
        site_base(website@) is Some,
    ensures
        match joined_url(site_base(website@)->0, path@) {
            Some(u) => r is Some && r->0@ == u,
            None => r is None,
        },
{
    let base = if same_text(website, "id") {
        "https://id.ustc.edu.cn"
    } else if same_text(website, "edu_system") {
        "https://jw.ustc.edu.cn"
    } else {
        "https://young.ustc.edu.cn"
    };
    join_url(base, path)
}

} // verus!
