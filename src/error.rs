use vstd::prelude::*;

verus! {

/// Errors of the client and of the secret path parsers.
#[derive(Debug, PartialEq, Eq)]
pub enum Error {
    /// not logged to vault server
    NotLogged,
    /// http error code and the server's messages
    VaultError(u16, String),
    /// unable to get vault mount
    MountsNotFound,
    /// undefined mount type
    UndefinedMountType(String),
    /// unknown backend
    UnknowBackend(String),
    /// missing the backend argument
    NoBackend,
    /// missing a ':' to separate backend from arguments
    NoArgs(String),
    /// missing a ':' to separate arguments from path
    NoPath(String),
    /// extra data after path
    ExtraData(String),
}

/// What an [`Error`] holds, with its texts as character sequences.
pub enum ErrorView {
    NotLogged,
    VaultError(u16, Seq<char>),
    MountsNotFound,
    UndefinedMountType(Seq<char>),
    UnknowBackend(Seq<char>),
    NoBackend,
    NoArgs(Seq<char>),
    NoPath(Seq<char>),
    ExtraData(Seq<char>),
}

impl View for Error {
    type V = ErrorView;

    open spec fn view(&self) -> ErrorView {
        match self {
            Error::NotLogged => ErrorView::NotLogged,
            Error::VaultError(c, m) => ErrorView::VaultError(*c, m@),
            Error::MountsNotFound => ErrorView::MountsNotFound,
            Error::UndefinedMountType(m) => ErrorView::UndefinedMountType(m@),
            Error::UnknowBackend(b) => ErrorView::UnknowBackend(b@),
            Error::NoBackend => ErrorView::NoBackend,
            Error::NoArgs(r) => ErrorView::NoArgs(r@),
            Error::NoPath(r) => ErrorView::NoPath(r@),
            Error::ExtraData(r) => ErrorView::ExtraData(r@),
        }
    }
}

/// Whether two errors are of the same kind, whatever text they carry.
pub open spec fn same_kind(a: ErrorView, b: ErrorView) -> bool {
    match (a, b) {
        (ErrorView::NotLogged, ErrorView::NotLogged) => true,
        (ErrorView::VaultError(..), ErrorView::VaultError(..)) => true,
        (ErrorView::MountsNotFound, ErrorView::MountsNotFound) => true,
        (ErrorView::UndefinedMountType(_), ErrorView::UndefinedMountType(_)) => true,
        (ErrorView::UnknowBackend(_), ErrorView::UnknowBackend(_)) => true,
        (ErrorView::NoBackend, ErrorView::NoBackend) => true,
        (ErrorView::NoArgs(_), ErrorView::NoArgs(_)) => true,
        (ErrorView::NoPath(_), ErrorView::NoPath(_)) => true,
        (ErrorView::ExtraData(_), ErrorView::ExtraData(_)) => true,
        _ => false,
    }
}

/// The error list that the server sends back with a failure status.
#[derive(Debug)]
pub struct VaultErrors {
    pub errors: Vec<String>,
}

/// The messages of `m`, one per line.
pub open spec fn lines_of(m: Seq<Seq<char>>) -> Seq<char>
    decreases m.len(),
{
    if m.len() == 0 {
        seq![]
    } else if m.len() == 1 {
        m[0]
    } else {
        lines_of(m.drop_last()) + seq!['\n'] + m.last()
    }
}

impl VaultErrors {
    pub open spec fn messages(&self) -> Seq<Seq<char>> {
        self.errors@.map_values(|e: String| e@)
    }

    /// The server's messages joined by newlines.
    pub fn message(&self) -> (r: String)
        ensures
            r@ == lines_of(self.messages()),
    {
        let mut r = String::new();
        let mut i: usize = 0;
        while i < self.errors.len()
            invariant
                0 <= i <= self.errors@.len(),
                r@ == lines_of(self.messages().subrange(0, i as int)),
            decreases self.errors@.len() - i,
        {
            let ghost before = self.messages().subrange(0, i as int);
            if i > 0 {
                proof {
                    reveal_strlit("\n");
                }
                r.append("\n");
            }
            r.append(self.errors[i].as_str());
            proof {
                let next = self.messages().subrange(0, i + 1);
                assert(next.drop_last() =~= before);
                assert(next.last() == self.errors@[i as int]@);
                if i == 0 {
                    assert(r@ =~= next[0]);
                } else {
                    assert(r@ =~= lines_of(before) + seq!['\n'] + next.last());
                }
            }
            i += 1;
        }
        proof {
            assert(self.messages().subrange(0, i as int) =~= self.messages());
        }
        r
    }
}

} // verus!
