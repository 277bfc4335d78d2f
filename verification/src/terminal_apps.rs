//! Terminal emulator packages.

use vstd::prelude::*;

use crate::package_set;
use crate::package_set::PackageSet;
use crate::text;
use crate::text::{chars_of, copy_str, lines_of, push_text, string_of, trimmed};

verus! {

/// The package that a line of the file names, if it names one.
pub open spec fn listed(line: Seq<char>) -> Option<Seq<char>> {
    let t = text::trim(line);
    if t.len() == 0 || t.first() == '#' {
        None
    } else {
        Some(t)
    }
}

/// The packages that some line names.
pub open spec fn listed_in(ls: Seq<Seq<char>>) -> Set<Seq<char>> {
    Set::new(|p: Seq<char>| exists|i: int| 0 <= i < ls.len() && listed(#[trigger] ls[i]) == Some(p))
}

/// The packages that are taken for terminals unless a file names others.
pub open spec fn defaults() -> Seq<Seq<char>> {
    seq![
        "com.termux"@,
        "com.termius.client"@,
        "com.server.auditor.ssh.client"@,
        "bin.mt*"@,
    ]
}

/// The terminals that a file names; the defaults if it names none.
pub open spec fn resolved(content: Option<Seq<char>>) -> Set<Seq<char>> {
    let named = match content {
        Some(c) => listed_in(text::lines(c)),
        None => Set::empty(),
    };
    if named == Set::<Seq<char>>::empty() {
        defaults().to_set()
    } else {
        named
    }
}

/// The file that is created where there is none.
pub open spec fn default_text() -> Seq<char> {
    text::unlines(seq!["# Terminal apps list (supports wildcard *)"@] + defaults())
}

/// The packages whose child processes are not foreground apps.
#[derive(Debug, Clone)]
pub struct TerminalApps {
    pub packages: PackageSet,
}

impl Default for TerminalApps {
    fn default() -> (r: Self)
        ensures
            r.packages@ == Set::<Seq<char>>::empty(),
    {
        TerminalApps { packages: PackageSet::new() }
    }
}

impl TerminalApps {
    /// The content of a new terminal apps file.
    pub fn default_file() -> (r: String)
        ensures
            r@ == default_text(),
    {
        let mut out: Vec<char> = Vec::new();
        push_text(&mut out, "# Terminal apps list (supports wildcard *)");
        out.push('\n');
        push_text(&mut out, "com.termux");
        out.push('\n');
        push_text(&mut out, "com.termius.client");
        out.push('\n');
        push_text(&mut out, "com.server.auditor.ssh.client");
        out.push('\n');
        push_text(&mut out, "bin.mt*");
        out.push('\n');
        proof {
            let h = seq!["# Terminal apps list (supports wildcard *)"@] + defaults();
            let d = defaults();
            assert(h.drop_last() =~= seq![h[0], d[0], d[1], d[2]]);
            assert(h.drop_last().drop_last() =~= seq![h[0], d[0], d[1]]);
            assert(h.drop_last().drop_last().drop_last() =~= seq![h[0], d[0]]);
            assert(h.drop_last().drop_last().drop_last().drop_last() =~= seq![h[0]]);
            assert(h.drop_last().drop_last().drop_last().drop_last().drop_last() =~= Seq::<
                Seq<char>,
            >::empty());
            reveal_with_fuel(text::unlines, 6);
            assert(out@ =~= text::unlines(h));
        }
        string_of(out.as_slice())
    }

    /// The terminals that a file names (`None` if it cannot be read), or the
    /// defaults if it names none.
    pub fn load_or_create(content: Option<&str>) -> (r: Self)
        ensures
            r.packages@ == resolved(text::opt_str(content)),
    {
        let mut packages = PackageSet::new();
        let chars = match content {
            Some(text) => chars_of(text),
            None => Vec::new(),
        };
        let ls = lines_of(chars.as_slice());
        let ghost rows = text::rows(ls@);
        let mut i: usize = 0;
        assert(listed_in(rows.take(0)) =~= Set::<Seq<char>>::empty());
        while i < ls.len()
            invariant
                i <= ls.len(),
                rows == text::rows(ls@),
                packages@ == listed_in(rows.take(i as int)),
            decreases ls.len() - i,
        {
            let ghost head = rows.take(i as int);
            let ghost line = rows[i as int];
            let t = trimmed(ls[i]);
            if t.len() > 0 && t[0] != '#' {
                packages.insert(string_of(t));
            }
            proof {
                let w = rows.take(i + 1);
                assert(w =~= head.push(line));
                assert forall|p: Seq<char>| #[trigger] listed_in(w).contains(p) <==> listed_in(
                    head,
                ).contains(p) || listed(line) == Some(p) by {
                    assert(w[i as int] == line);
                    if listed_in(head).contains(p) {
                        let k = choose|k: int|
                            0 <= k < head.len() && listed(#[trigger] head[k]) == Some(p);
                        assert(w[k] == head[k]);
                    }
                    if listed_in(w).contains(p) && listed(line) != Some(p) {
                        let k = choose|k: int|
                            0 <= k < w.len() && listed(#[trigger] w[k]) == Some(p);
                        assert(head[k] == w[k]);
                    }
                }
                assert(packages@ =~= listed_in(w));
            }
            i += 1;
        }
        assert(rows.take(rows.len() as int) =~= rows);
        proof {
            if content is None {
                assert(packages@ =~= Set::<Seq<char>>::empty());
            }
        }
        if packages.len() == 0 {
            packages.insert(copy_str("com.termux"));
            packages.insert(copy_str("com.termius.client"));
            packages.insert(copy_str("com.server.auditor.ssh.client"));
            packages.insert(copy_str("bin.mt*"));
            proof {
                let d = defaults();
                assert(d.contains(d[0]) && d.contains(d[1]) && d.contains(d[2]) && d.contains(d[3]));
                assert(packages@ =~= d.to_set());
            }
        }
        Self { packages }
    }

    /// Whether `package` is a terminal.
    pub fn is_terminal(&self, package: &str) -> (r: bool)
        ensures
            r == package_set::covered(self.packages@, package@),
    {
        self.packages.covers(package)
    }
}

/// The file that is created names exactly the default terminals.
pub proof fn law_default_file_names_defaults()
    ensures
        resolved(Some(default_text())) == defaults().to_set(),
{
    let d = defaults();
    let h = seq!["# Terminal apps list (supports wildcard *)"@] + d;
    reveal_strlit("# Terminal apps list (supports wildcard *)");
    reveal_strlit("com.termux");
    reveal_strlit("com.termius.client");
    reveal_strlit("com.server.auditor.ssh.client");
    reveal_strlit("bin.mt*");
    assert forall|i: int| 0 <= i < h.len() implies text::plain_line(#[trigger] h[i]) by {}
    text::lemma_lines_unlines(h, seq![]);
    assert(text::unlines(h) + Seq::<char>::empty() =~= text::unlines(h));
    assert(h + text::lines(Seq::<char>::empty()) =~= h);
    assert forall|i: int| 0 <= i < h.len() implies listed(#[trigger] h[i]) == if i == 0 {
        None
    } else {
        Some(h[i])
    } by {
        text::lemma_trim_fixed(h[i]);
    }
    assert forall|p: Seq<char>| #[trigger] listed_in(h).contains(p) <==> d.contains(p) by {
        if d.contains(p) {
            let k = choose|k: int| 0 <= k < d.len() && d[k] == p;
            assert(h[k + 1] == p);
        }
        if listed_in(h).contains(p) {
            let k = choose|k: int| 0 <= k < h.len() && listed(#[trigger] h[k]) == Some(p);
            assert(d[k - 1] == p);
        }
    }
    assert(listed_in(h) =~= d.to_set());
    assert(d.contains(d[0]));
    assert(d.to_set().contains(d[0]));
}

/// Whether a line of the file is `x`, but for white space around it, and `x` is
/// neither empty nor a comment.
pub open spec fn has_line(content: Option<Seq<char>>, x: Seq<char>) -> bool {
    content is Some && x.len() > 0 && x[0] != '#' && exists|i: int|
        0 <= i < text::lines(content->0).len() && text::trim(#[trigger] text::lines(content->0)[i])
            == x
}

/// The terminals are the lines of the file that are no comments; where it has
/// none, or there is no file, the known ones.
pub proof fn law_terminals_are_exact(content: Option<Seq<char>>, x: Seq<char>)
    ensures
        (exists|y: Seq<char>| has_line(content, y)) ==> (resolved(content).contains(x)
            <==> has_line(content, x)),
        !(exists|y: Seq<char>| has_line(content, y)) ==> (resolved(content).contains(x) <==> x
            == "com.termux"@ || x == "com.termius.client"@ || x
            == "com.server.auditor.ssh.client"@ || x == "bin.mt*"@),
{
    let d = defaults();
    assert(d.contains(d[0]) && d.contains(d[1]) && d.contains(d[2]) && d.contains(d[3]));
    if let Some(c) = content {
        let ls = text::lines(c);
        assert forall|y: Seq<char>| #[trigger] listed_in(ls).contains(y) <==> has_line(content, y) by {
            if listed_in(ls).contains(y) {
                let i = choose|i: int| 0 <= i < ls.len() && listed(#[trigger] ls[i]) == Some(y);
                assert(text::trim(text::lines(content->0)[i]) == y);
            }
            if has_line(content, y) {
                let i = choose|i: int|
                    0 <= i < text::lines(content->0).len() && text::trim(
                        #[trigger] text::lines(content->0)[i],
                    ) == y;
                assert(listed(ls[i]) == Some(y));
            }
        }
        if exists|y: Seq<char>| has_line(content, y) {
            let y = choose|y: Seq<char>| has_line(content, y);
            assert(listed_in(ls).contains(y));
        } else {
            assert(listed_in(ls) =~= Set::<Seq<char>>::empty());
        }
    }
}

/// The lines of the file that names the default terminals.
pub proof fn law_default_file()
    ensures
        default_text() == "# Terminal apps list (supports wildcard *)\n"@ + "com.termux\n"@
            + "com.termius.client\n"@ + "com.server.auditor.ssh.client\n"@ + "bin.mt*\n"@,
{
    reveal_strlit("# Terminal apps list (supports wildcard *)");
    reveal_strlit("# Terminal apps list (supports wildcard *)\n");
    reveal_strlit("com.termux");
    reveal_strlit("com.termux\n");
    reveal_strlit("com.termius.client");
    reveal_strlit("com.termius.client\n");
    reveal_strlit("com.server.auditor.ssh.client");
    reveal_strlit("com.server.auditor.ssh.client\n");
    reveal_strlit("bin.mt*");
    reveal_strlit("bin.mt*\n");
    let head = "# Terminal apps list (supports wildcard *)"@;
    let p0 = Seq::<Seq<char>>::empty();
    let p1 = p0.push(head);
    let p2 = p1.push("com.termux"@);
    let p3 = p2.push("com.termius.client"@);
    let p4 = p3.push("com.server.auditor.ssh.client"@);
    text::law_unlines(p0, head);
    text::law_unlines(p1, "com.termux"@);
    text::law_unlines(p2, "com.termius.client"@);
    text::law_unlines(p3, "com.server.auditor.ssh.client"@);
    text::law_unlines(p4, "bin.mt*"@);
    assert(seq![head] + defaults() =~= p4.push("bin.mt*"@));
    let nl = seq!['\n'];
    assert(head + nl =~= "# Terminal apps list (supports wildcard *)\n"@);
    assert("com.termux"@ + nl =~= "com.termux\n"@);
    assert("com.termius.client"@ + nl =~= "com.termius.client\n"@);
    assert("com.server.auditor.ssh.client"@ + nl =~= "com.server.auditor.ssh.client\n"@);
    assert("bin.mt*"@ + nl =~= "bin.mt*\n"@);
    assert(default_text() =~= (head + nl) + ("com.termux"@ + nl) + ("com.termius.client"@ + nl) + (
    "com.server.auditor.ssh.client"@ + nl) + ("bin.mt*"@ + nl));
}

} // verus!
