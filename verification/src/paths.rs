use vstd::prelude::*;
use vstd::string::*;

verus! {

/// Relies on dirs::home_dir: the platform's home directory for the
/// current user, if it has one. The answer depends on the
/// environment, so nothing further is promised of it.
#[verifier::external_body]
fn home_dir_string() -> (r: Option<String>) {
    dirs::home_dir().map(|p| p.to_string_lossy().to_string())
}

/// Where a path leads once a leading `~/` is expanded against the
/// home directory: home, a separator, and the rest of the path; a
/// path without the prefix, or no home to expand against, leaves
/// the path unchanged.
pub open spec fn expand_home_spec(path: Seq<char>, home: Option<Seq<char>>) -> Seq<char> {
    if path.len() >= 2 && path[0] == '~' && path[1] == '/' {
        match home {
            Option::Some(h) => h + seq!['/'] + path.skip(2),
            Option::None => path,
        }
    } else {
        path
    }
}

/// Expand a leading `~/` against the given home directory.
pub fn expand_home_with(path: &str, home: Option<&str>) -> (r: String)
    ensures
        r@ == expand_home_spec(
            path@,
            (match home {
                Option::Some(h) => Option::Some(h@),
                Option::None => Option::None,
            }),
        ),
{
    let n: usize = path.unicode_len();
    if n >= 2 && path.get_char(0) == '~' && path.get_char(1) == '/' {
        match home {
            Option::Some(h) => {
                let mut out = h.to_owned();
                out.append("/");
                out.append(path.substring_char(2, n));
                proof {
                    reveal_strlit("/");
                    assert("/"@ =~= seq!['/']);
                    assert(path@.subrange(2, n as int) =~= path@.skip(2));
                }
                out
            },
            Option::None => path.to_owned(),
        }
    } else {
        path.to_owned()
    }
}

/// Expand a leading `~/` against the platform's home directory. The
/// home directory depends on the environment; whatever it is, the
/// result is the path expanded against it, and a path without the
/// prefix comes back unchanged.
pub fn expand_home(path: &str) -> (r: String)
    ensures
        exists|h: Option<Seq<char>>| r@ == expand_home_spec(path@, h),
        !(path@.len() >= 2 && path@[0] == '~' && path@[1] == '/') ==> r@ == path@,
{
    let home = home_dir_string();
    match &home {
        Option::Some(h) => {
            let r = expand_home_with(path, Some(h.as_str()));
            proof {
                assert(r@ == expand_home_spec(path@, Option::Some(h@)));
            }
            r
        },
        Option::None => {
            let r = expand_home_with(path, None);
            proof {
                assert(r@ == expand_home_spec(path@, Option::None));
            }
            r
        },
    }
}

} // verus!
