//! The provisioning script: an ordered, fixed-length sequence of command
//! lines, some of which are no-ops (lines that began life as comments), and
//! the pure substitution engine that fills placeholder tokens in.

use vstd::prelude::*;
use vstd::string::*;

use crate::text::{
    contains_tok, lemma_replace_absent, lemma_replace_introduces_value,
    lemma_replace_no_reintroduction, lines_of, no_overlap, replace_all, replaced, split_lines,
    starts_with_hash,
};

verus! {

/// A comment line (first character `'#'`) becomes an empty no-op line; any
/// other line is kept verbatim.
pub open spec fn noop_stripped(l: Seq<char>) -> Seq<char> {
    if l.len() > 0 && l[0] == '#' {
        Seq::empty()
    } else {
        l
    }
}

/// The script that a raw script text loads to: its physical lines, comments
/// mapped to no-ops.
pub open spec fn script_of_text(text: Seq<char>) -> Seq<Seq<char>> {
    lines_of(text).map_values(|l: Seq<char>| noop_stripped(l))
}

/// Every line with all occurrences of the token `t` replaced by `v`.
pub open spec fn subst_lines(s: Seq<Seq<char>>, t: Seq<char>, v: Seq<char>) -> Seq<Seq<char>> {
    s.map_values(|l: Seq<char>| replaced(l, t, v))
}

/// An ordered provisioning script. Line order is exactly the order of the
/// source text; substitution changes content, never length or order. Empty
/// lines are no-ops and are never dispatched to the device driver.
#[derive(Debug)]
pub struct Script {
    pub commands: Vec<String>,
}

impl View for Script {
    type V = Seq<Seq<char>>;

    open spec fn view(&self) -> Seq<Seq<char>> {
        self.commands.deep_view()
    }
}

/// A script source that could not be read: the path was missing, unreadable,
/// or not valid text.
#[derive(Debug)]
pub struct LoadError {
    pub path: String,
}

impl Script {
    /// Builds a script from raw script text: one command per physical line,
    /// comment lines mapped to empty no-op lines, all others kept verbatim.
    pub fn new(text: &str) -> (s: Script)
        ensures
            s@ == script_of_text(text@),
    {
        let lines = split_lines(text);
        let mut commands: Vec<String> = Vec::new();
        let n = lines.len();
        let mut i: usize = 0;
        proof {
            assert(commands.deep_view() =~= script_of_text(text@).take(0));
        }
        while i < n
            invariant
                n == lines.len(),
                i <= n,
                lines.deep_view() == lines_of(text@),
                commands.deep_view() == script_of_text(text@).take(i as int),
            decreases n - i,
        {
            let li: &String = &lines[i];
            let cmd = strip_comment_line(li);
            let ghost prev = commands.deep_view();
            let ghost target = script_of_text(text@);
            proof {
                assert(lines.deep_view()[i as int] == lines@[i as int]@);
                assert(target[i as int] == noop_stripped(lines_of(text@)[i as int]));
                assert(cmd@ == target[i as int]);
            }
            commands.push(cmd);
            i += 1;
            proof {
                assert(commands.deep_view() =~= prev.push(target[i - 1]));
                assert(prev.push(target[i - 1]) =~= target.take(i as int));
            }
        }
        proof {
            assert(script_of_text(text@).take(n as int) =~= script_of_text(text@));
        }
        Script { commands }
    }

    /// Replaces every occurrence of the image placeholder `_image` with the
    /// given image path, line by line; lines without the placeholder pass
    /// through unchanged.
    pub fn with_image(self, image: &str) -> (s: Script)
        ensures
            s@ == subst_lines(self@, "_image"@, image@),
    {
        proof {
            reveal_strlit("_image");
        }
        self.substitute("_image", image)
    }

    /// Replaces every occurrence of the bootloader placeholder `_flash.bin`
    /// with the given bootloader path, line by line; lines without the
    /// placeholder pass through unchanged.
    pub fn with_bootloader(self, bootloader: &str) -> (s: Script)
        ensures
            s@ == subst_lines(self@, "_flash.bin"@, bootloader@),
    {
        proof {
            reveal_strlit("_flash.bin");
        }
        self.substitute("_flash.bin", bootloader)
    }

    /// Pure, order-preserving substitution: a new script of identical length
    /// in which every occurrence of `token` within each line is replaced by
    /// `value`.
    pub fn substitute(self, token: &str, value: &str) -> (s: Script)
        requires
            token@.len() > 0,
        ensures
            s@ == subst_lines(self@, token@, value@),
    {
        let mut commands: Vec<String> = Vec::new();
        let n = self.commands.len();
        let mut i: usize = 0;
        proof {
            assert(commands.deep_view() =~= subst_lines(self@, token@, value@).take(0));
        }
        while i < n
            invariant
                n == self.commands.len(),
                i <= n,
                token@.len() > 0,
                commands.deep_view() == subst_lines(self@, token@, value@).take(i as int),
            decreases n - i,
        {
            let line = replace_all(self.commands[i].as_str(), token, value);
            let ghost prev = commands.deep_view();
            let ghost target = subst_lines(self@, token@, value@);
            proof {
                assert(self@[i as int] == self.commands@[i as int]@);
                assert(target[i as int] == replaced(self@[i as int], token@, value@));
                assert(line@ == target[i as int]);
            }
            commands.push(line);
            i += 1;
            proof {
                assert(commands.deep_view() =~= prev.push(target[i - 1]));
                assert(prev.push(target[i - 1]) =~= target.take(i as int));
            }
        }
        proof {
            assert(subst_lines(self@, token@, value@).take(n as int) =~= subst_lines(
                self@,
                token@,
                value@,
            ));
        }
        Script { commands }
    }

    /// The number of lines, no-ops included.
    pub fn len(&self) -> (n: usize)
        ensures
            n == self@.len(),
    {
        self.commands.len()
    }

    /// The line at position `i`, as it would be dispatched.
    pub fn line_at(&self, i: usize) -> (l: &String)
        requires
            i < self@.len(),
        ensures
            l@ == self@[i as int],
    {
        &self.commands[i]
    }
}

/// Loads a script from the outcome of reading a source file: the text maps
/// to its script, an unreadable source to a `LoadError` naming the path,
/// before any device interaction.
pub fn load_script(path: &str, contents: Option<&str>) -> (r: Result<Script, LoadError>)
    ensures
        r is Ok <==> contents is Some,
        contents is Some ==> r->Ok_0@ == script_of_text(contents->0@),
        contents is None ==> r->Err_0.path@ == path@,
{
    match contents {
        Some(text) => Ok(Script::new(text)),
        None => Err(LoadError { path: String::from_str(path) }),
    }
}

/// How many lines of a script contain the token `t`.
pub open spec fn count_lines_containing(s: Seq<Seq<char>>, t: Seq<char>) -> int
    decreases s.len(),
{
    if s.len() == 0 {
        0
    } else {
        (if contains_tok(s[0], t) {
            1int
        } else {
            0int
        }) + count_lines_containing(s.drop_first(), t)
    }
}

/// Substitution completeness: where the token cannot interlock with the
/// value and appears in exactly K lines (no token-free line already holding
/// the value), after substitution no line contains the token and exactly K
/// lines contain the value.
pub proof fn lemma_substitution_completeness(s: Seq<Seq<char>>, t: Seq<char>, v: Seq<char>)
    requires
        no_overlap(t, v),
        forall|i: int| 0 <= i < s.len() && !contains_tok(s[i], t) ==> !contains_tok(s[i], v),
    ensures
        forall|i: int| 0 <= i < s.len() ==> !contains_tok(#[trigger] subst_lines(s, t, v)[i], t),
        count_lines_containing(subst_lines(s, t, v), v) == count_lines_containing(s, t),
    decreases s.len(),
{
    let r = subst_lines(s, t, v);
    assert forall|i: int| 0 <= i < s.len() implies !contains_tok(#[trigger] r[i], t) by {
        lemma_replace_no_reintroduction(s[i], t, v);
    }
    if s.len() > 0 {
        let s1 = s.drop_first();
        assert(forall|i: int| 0 <= i < s1.len() ==> s1[i] == s[i + 1]);
        lemma_substitution_completeness(s1, t, v);
        assert(subst_lines(s1, t, v) =~= r.drop_first());
        if contains_tok(s[0], t) {
            lemma_replace_introduces_value(s[0], t, v);
            assert(contains_tok(r[0], v));
        } else {
            lemma_replace_absent(s[0], t, v);
            assert(r[0] == s[0]);
            assert(!contains_tok(r[0], v));
        }
    }
}

/// Substitution non-interference: a line that does not contain the token is
/// byte-identical before and after substitution.
pub proof fn lemma_substitution_non_interference(
    s: Seq<Seq<char>>,
    t: Seq<char>,
    v: Seq<char>,
    i: int,
)
    requires
        0 <= i < s.len(),
        !contains_tok(s[i], t),
    ensures
        subst_lines(s, t, v)[i] == s[i],
{
    lemma_replace_absent(s[i], t, v);
}

/// One line of a loaded script: a comment becomes the empty no-op line.
fn strip_comment_line(line: &String) -> (r: String)
    ensures
        r@ == noop_stripped(line@),
{
    if starts_with_hash(line.as_str()) {
        String::new()
    } else {
        line.clone()
    }
}

} // verus!
