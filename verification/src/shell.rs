//! The statements that set and unset a variable, in the syntax of each shell.

use vstd::prelude::*;

verus! {

/// The shells for which statements are rendered.
#[derive(Clone, Copy, Debug, PartialEq, Eq, Structural)]
pub enum Shell {
    Zsh,
    Fish,
}

/// The statement, with its line end, that sets `name` to `value`.
pub open spec fn export_line(shell: Shell, name: Seq<char>, value: Seq<char>) -> Seq<char> {
    match shell {
        Shell::Zsh => "export "@ + name + "="@ + value + "\n"@,
        Shell::Fish => "set -gx "@ + name + " "@ + value + ";\n"@,
    }
}

/// The statement, with its line end, that removes `name`.
pub open spec fn unset_line(shell: Shell, name: Seq<char>) -> Seq<char> {
    match shell {
        Shell::Zsh => "unset "@ + name + "\n"@,
        Shell::Fish => "set -ge "@ + name + ";\n"@,
    }
}

/// The line `name=value`, with its line end.
pub open spec fn assignment_line(name: Seq<char>, value: Seq<char>) -> Seq<char> {
    name + "="@ + value + "\n"@
}

impl Shell {
    /// Appends to `out` the statement that sets `name` to `value`.
    pub fn push_export(self, out: &mut String, name: &str, value: &str)
        ensures
            final(out)@ == old(out)@ + export_line(self, name@, value@),
    {
        match self {
            Shell::Zsh => {
                out.append("export ");
                out.append(name);
                out.append("=");
                out.append(value);
                out.append("\n");
            },
            Shell::Fish => {
                out.append("set -gx ");
                out.append(name);
                out.append(" ");
                out.append(value);
                out.append(";\n");
            },
        }
        assert(out@ =~= old(out)@ + export_line(self, name@, value@));
    }

    /// Appends to `out` the statement that removes `name`.
    pub fn push_unset(self, out: &mut String, name: &str)
        ensures
            final(out)@ == old(out)@ + unset_line(self, name@),
    {
        match self {
            Shell::Zsh => {
                out.append("unset ");
                out.append(name);
                out.append("\n");
            },
            Shell::Fish => {
                out.append("set -ge ");
                out.append(name);
                out.append(";\n");
            },
        }
        assert(out@ =~= old(out)@ + unset_line(self, name@));
    }
}

/// Appends to `out` the line `name=value`.
pub fn push_assignment(out: &mut String, name: &str, value: &str)
    ensures
        final(out)@ == old(out)@ + assignment_line(name@, value@),
{
    out.append(name);
    out.append("=");
    out.append(value);
    out.append("\n");
    assert(out@ =~= old(out)@ + assignment_line(name@, value@));
}

} // verus!
