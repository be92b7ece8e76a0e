//! The configured library root, and the expansion of a leading `~/` to
//! the user's home directory.
use vstd::prelude::*;

verus! {

/// What the configuration file provides: the root of the music library.
#[derive(Clone, Debug)]
pub struct Config {
    pub music_dir: String,
}

/// How many leading characters of the path are `~` or `/`: what a `~/`
/// path sheds before it is joined onto the home directory.
pub open spec fn leading_marks(s: Seq<char>) -> int
    decreases s.len(),
{
    if s.len() == 0 {
        0
    } else if s[0] == '~' || s[0] == '/' {
        1 + leading_marks(s.drop_first())
    } else {
        0
    }
}

proof fn lemma_leading_marks(s: Seq<char>, i: int)
    requires
        0 <= i <= s.len(),
        forall|j: int| 0 <= j < i ==> (s[j] == '~' || s[j] == '/'),
        i < s.len() ==> !(s[i] == '~' || s[i] == '/'),
    ensures
        leading_marks(s) == i,
    decreases s.len(),
{
    if s.len() > 0 {
        if i == 0 {
            assert(!(s[0] == '~' || s[0] == '/'));
        } else {
            assert(s[0] == '~' || s[0] == '/');
            lemma_leading_marks(s.drop_first(), i - 1);
        }
    }
}

/// Whether the configured directory calls for home expansion: it starts
/// with `~/`.
pub open spec fn wants_home(s: Seq<char>) -> bool {
    s.len() >= 2 && s[0] == '~' && s[1] == '/'
}

/// Expand a leading `~/` against the home directory: the home path, one
/// separator, then the configured path with every leading `~` and `/`
/// shed. A path without the `~/` prefix passes through unchanged.
/// The number of leading `~` and `/` characters, counted left to right.
fn leading_mark_count(s: &str) -> (i: usize)
    ensures
        i as int == leading_marks(s@),
        i <= s@.len(),
{
    let n = s.unicode_len();
    let mut i: usize = 0;
    loop
        invariant
            i <= n,
            n == s@.len(),
            forall|j: int| 0 <= j < i ==> (s@[j] == '~' || s@[j] == '/'),
        decreases n - i,
    {
        if i >= n {
            proof {
                lemma_leading_marks(s@, i as int);
            }
            return i;
        }
        let c = s.get_char(i);
        if c != '~' && c != '/' {
            proof {
                lemma_leading_marks(s@, i as int);
            }
            return i;
        }
        i += 1;
    }
}

/// Expand a leading `~/` against the home directory: the home path, one
/// separator, then the configured path with every leading `~` and `/`
/// shed. A path without the `~/` prefix passes through unchanged.
pub fn expand_home(music_dir: &str, home: &str) -> (r: String)
    ensures
        wants_home(music_dir@) ==> r@ == home@ + seq!['/'] + music_dir@.skip(
            leading_marks(music_dir@),
        ),
        !wants_home(music_dir@) ==> r@ == music_dir@,
{
    let n = music_dir.unicode_len();
    if n >= 2 && music_dir.get_char(0) == '~' && music_dir.get_char(1) == '/' {
        let i = leading_mark_count(music_dir);
        let rest = music_dir.substring_char(i, n);
        let mut out = home.to_owned();
        out.append("/");
        out.append(rest);
        proof {
            assert(("/")@ =~= seq!['/']) by {
                reveal_strlit("/");
            }
            assert(music_dir@.subrange(i as int, n as int) =~= music_dir@.skip(i as int));
        }
        out
    } else {
        music_dir.to_owned()
    }
}

} // verus!
