//! Choosing which shell to launch: a pure function of the platform and
//! of the two environment values that name a shell.  It never fails
//! and never touches the system; the embedding application reads the
//! environment and passes the values in.
//!
//! On POSIX platforms the `SHELL` value wins, with a fixed fallback.
//! On Windows a set `SHELL` is trusted verbatim; otherwise the command
//! interpreter value is inspected: a classic command shell gets the
//! flag that keeps its window open, a PowerShell-family shell gets the
//! equivalent flag, anything else is used bare, and if neither value
//! is set a PowerShell-family default is chosen.

use vstd::prelude::*;

verus! {

/// The platform the manager runs on, as far as shell choice cares.
#[derive(Clone, Copy, PartialEq, Eq, Structural, Debug)]
pub enum Platform {
    Windows,
    Posix,
}

/// A resolved launch choice: the shell executable and its start-up
/// arguments, in order.
pub struct ShellChoice {
    pub program: String,
    pub args: Vec<String>,
}

/// A character folded to lower case within ASCII, as a code point.
pub open spec fn fold_lower(c: char) -> int {
    if 65 <= c as u32 && c as u32 <= 90 {
        c as u32 + 32
    } else {
        c as u32 as int
    }
}

/// `needle` stands at offset `i` of `hay`, compared case-insensitively
/// within ASCII.
pub open spec fn matches_at(hay: Seq<char>, needle: Seq<char>, i: int) -> bool {
    forall|j: int| 0 <= j < needle.len() ==> fold_lower(hay[i + j]) == fold_lower(needle[j])
}

/// `hay` holds `needle` somewhere, compared case-insensitively within
/// ASCII.
pub open spec fn contains_ci(hay: Seq<char>, needle: Seq<char>) -> bool {
    exists|i: int| 0 <= i && i + needle.len() <= hay.len() && matches_at(hay, needle, i)
}

/// One character folded to lower case within ASCII.
fn fold_char(c: char) -> (r: u32)
    ensures
        r == fold_lower(c),
{
    let u = c as u32;
    if 65 <= u && u <= 90 {
        u + 32
    } else {
        u
    }
}

/// Whether `hay` holds `needle`, compared case-insensitively within
/// ASCII.
fn contains_fold(hay: &str, needle: &str) -> (r: bool)
    ensures
        r == contains_ci(hay@, needle@),
{
    let n = hay.unicode_len();
    let m = needle.unicode_len();
    if m > n {
        proof {
            if contains_ci(hay@, needle@) {
                let w = choose|w: int|
                    0 <= w && w + needle@.len() <= hay@.len() && matches_at(hay@, needle@, w);
                assert(false);
            }
        }
        return false;
    }
    let mut i: usize = 0;
    while i <= n - m
        invariant
            m <= n,
            n == hay@.len(),
            m == needle@.len(),
            i <= n - m + 1,
            forall|k: int| 0 <= k < i ==> !matches_at(hay@, needle@, k),
        decreases n - m - i + 1,
    {
        let mut j: usize = 0;
        let mut ok = true;
        while j < m && ok
            invariant
                j <= m,
                m <= n,
                i <= n - m,
                n == hay@.len(),
                m == needle@.len(),
                ok ==> forall|l: int|
                    0 <= l < j ==> fold_lower(hay@[i + l]) == fold_lower(needle@[l]),
                !ok ==> !matches_at(hay@, needle@, i as int),
            decreases m - j + (if ok {
                1int
            } else {
                0int
            }),
        {
            let hc = hay.get_char(i + j);
            let nc = needle.get_char(j);
            if fold_char(hc) != fold_char(nc) {
                proof {
                    assert(fold_lower(hay@[i + j]) != fold_lower(needle@[j as int]));
                }
                ok = false;
            } else {
                j += 1;
            }
        }
        if ok {
            proof {
                assert(matches_at(hay@, needle@, i as int));
                assert(0 <= i as int && i as int + needle@.len() <= hay@.len() && matches_at(
                    hay@,
                    needle@,
                    i as int,
                ));
            }
            return true;
        }
        i += 1;
    }
    proof {
        if contains_ci(hay@, needle@) {
            let w = choose|w: int|
                0 <= w && w + needle@.len() <= hay@.len() && matches_at(hay@, needle@, w);
            assert(!matches_at(hay@, needle@, w));
            assert(false);
        }
    }
    false
}

/// The shell program the resolver picks.
pub open spec fn chosen_program(
    platform: Platform,
    shell_var: Option<Seq<char>>,
    comspec_var: Option<Seq<char>>,
) -> Seq<char> {
    match platform {
        Platform::Posix => match shell_var {
            Some(s) => s,
            None => "/bin/bash"@,
        },
        Platform::Windows => match shell_var {
            Some(s) => s,
            None => match comspec_var {
                Some(c) => c,
                None => "powershell.exe"@,
            },
        },
    }
}

/// The start-up arguments the resolver picks.
pub open spec fn chosen_args(
    platform: Platform,
    shell_var: Option<Seq<char>>,
    comspec_var: Option<Seq<char>>,
) -> Seq<Seq<char>> {
    match platform {
        Platform::Posix => Seq::empty(),
        Platform::Windows => match shell_var {
            Some(_) => Seq::empty(),
            None => match comspec_var {
                Some(c) => if contains_ci(c, "cmd"@) {
                    seq!["/K"@]
                } else if contains_ci(c, "powershell"@) {
                    seq!["-NoExit"@]
                } else {
                    Seq::empty()
                },
                None => seq!["-NoExit"@],
            },
        },
    }
}

/// Decide which shell to launch and with which arguments.  Pure and
/// total: some usable choice comes back for every input.
pub fn resolve_shell(
    platform: Platform,
    shell_var: Option<String>,
    comspec_var: Option<String>,
) -> (r: ShellChoice)
    ensures
        r.program@ == chosen_program(platform, shell_var.deep_view(), comspec_var.deep_view()),
        r.args@.map_values(|a: String| a@) == chosen_args(
            platform,
            shell_var.deep_view(),
            comspec_var.deep_view(),
        ),
{
    let ghost sv = shell_var.deep_view();
    let ghost cv = comspec_var.deep_view();
    match platform {
        Platform::Posix => {
            let program = match shell_var {
                Some(s) => s,
                None => String::from_str("/bin/bash"),
            };
            let args: Vec<String> = Vec::new();
            proof {
                assert(args@.map_values(|a: String| a@) =~= chosen_args(platform, sv, cv));
            }
            ShellChoice { program, args }
        },
        Platform::Windows => match shell_var {
            Some(s) => {
                let args: Vec<String> = Vec::new();
                proof {
                    assert(args@.map_values(|a: String| a@) =~= chosen_args(platform, sv, cv));
                }
                ShellChoice { program: s, args }
            },
            None => match comspec_var {
                Some(c) => {
                    let mut args: Vec<String> = Vec::new();
                    if contains_fold(c.as_str(), "cmd") {
                        args.push(String::from_str("/K"));
                    } else if contains_fold(c.as_str(), "powershell") {
                        args.push(String::from_str("-NoExit"));
                    }
                    proof {
                        assert(args@.map_values(|a: String| a@) =~= chosen_args(
                            platform,
                            sv,
                            cv,
                        ));
                    }
                    ShellChoice { program: c, args }
                },
                None => {
                    let mut args: Vec<String> = Vec::new();
                    args.push(String::from_str("-NoExit"));
                    proof {
                        assert(args@.map_values(|a: String| a@) =~= chosen_args(
                            platform,
                            sv,
                            cv,
                        ));
                    }
                    ShellChoice { program: String::from_str("powershell.exe"), args }
                },
            },
        },
    }
}

} // verus!
