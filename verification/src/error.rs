//! Error taxonomy of the engine.
//!
//! Failures are reported as a stack of typed frames: the root cause sits at
//! the bottom and every layer that adds context pushes one more frame on
//! top.  The stack is created with at least one frame and never shrinks, so
//! the most recent error is always available.

use vstd::prelude::*;

verus! {

/// The closed set of error kinds the engine and its collaborators report.
#[derive(Clone, Copy, Debug, PartialEq, Eq, Structural)]
pub enum ErrT {
    AccessLog,
    AdminBook,
    AuthMiddleware,
    AuthNotAuthenticated,
    AuthNonUtf8Cookie,
    BookUi,
    DbConnectionFailure,
    DbMigrationFailure,
    DbReturnedErronoeousRole,
    /// A revision that must hold at least one block holds none.
    EmptyRevision,
    /// A stored block-type code does not decode to any known block type.
    InvalidBlockType,
    Invariant,
    /// The underlying store is unreachable or a constraint was violated.
    PersistenceFailure,
    SqlxError,
    TokenInUse,
    ValidationError,
}

impl ErrT {
    /// The kind's name, for error reports.
    pub fn name(self) -> (r: &'static str)
        ensures
            r@.len() > 0,
    {
        proof {
            reveal_strlit("AccessLog");
            reveal_strlit("AdminBook");
            reveal_strlit("AuthMiddleware");
            reveal_strlit("AuthNotAuthenticated");
            reveal_strlit("AuthNonUtf8Cookie");
            reveal_strlit("BookUi");
            reveal_strlit("DbConnectionFailure");
            reveal_strlit("DbMigrationFailure");
            reveal_strlit("DbReturnedErronoeousRole");
            reveal_strlit("EmptyRevision");
            reveal_strlit("InvalidBlockType");
            reveal_strlit("Invariant");
            reveal_strlit("PersistenceFailure");
            reveal_strlit("SqlxError");
            reveal_strlit("TokenInUse");
            reveal_strlit("ValidationError");
        }
        match self {
            ErrT::AccessLog => "AccessLog",
            ErrT::AdminBook => "AdminBook",
            ErrT::AuthMiddleware => "AuthMiddleware",
            ErrT::AuthNotAuthenticated => "AuthNotAuthenticated",
            ErrT::AuthNonUtf8Cookie => "AuthNonUtf8Cookie",
            ErrT::BookUi => "BookUi",
            ErrT::DbConnectionFailure => "DbConnectionFailure",
            ErrT::DbMigrationFailure => "DbMigrationFailure",
            ErrT::DbReturnedErronoeousRole => "DbReturnedErronoeousRole",
            ErrT::EmptyRevision => "EmptyRevision",
            ErrT::InvalidBlockType => "InvalidBlockType",
            ErrT::Invariant => "Invariant",
            ErrT::PersistenceFailure => "PersistenceFailure",
            ErrT::SqlxError => "SqlxError",
            ErrT::TokenInUse => "TokenInUse",
            ErrT::ValidationError => "ValidationError",
        }
    }
}

/// One layer of an error stack: the kind of failure, plus optional free-form
/// context attached by the layer that observed it.
#[derive(Debug)]
pub struct ErrFrame {
    pub variant: ErrT,
    pub ctx: Option<String>,
}

/// The mathematical image of one frame.
pub struct ErrFrameModel {
    pub variant: ErrT,
    pub ctx: Option<Seq<char>>,
}

impl View for ErrFrame {
    type V = ErrFrameModel;

    open spec fn view(&self) -> ErrFrameModel {
        ErrFrameModel {
            variant: self.variant,
            ctx: match self.ctx {
                Some(ref s) => Some(s@),
                None => None,
            },
        }
    }
}

/// A stack of error frames, ordered oldest first.
#[derive(Debug)]
pub struct ErrStack {
    /// The stack is constructed with at least one frame in [`ErrStack::new`].
    stack: Vec<ErrFrame>,
}

impl View for ErrStack {
    type V = Seq<ErrFrameModel>;

    closed spec fn view(&self) -> Seq<ErrFrameModel> {
        self.stack@.map_values(|f: ErrFrame| f@)
    }
}

impl ErrStack {
    /// Every stack reachable through this type's constructors holds at
    /// least one frame.
    pub open spec fn wf(&self) -> bool {
        self@.len() >= 1
    }

    /// Whether some frame in the stack reports a failed authentication.
    pub open spec fn spec_is_auth_failure(&self) -> bool {
        exists|i: int| 0 <= i < self@.len() && self@[i].variant == ErrT::AuthNotAuthenticated
    }

    pub fn new(root_err: ErrT) -> (r: Self)
        ensures
            r@.len() == 1,
            r@[0].variant == root_err,
            r@[0].ctx is None,
            r.wf(),
    {
        let frame = ErrFrame { variant: root_err, ctx: None };
        Self { stack: vec![frame] }
    }

    pub fn wrap(self, err: ErrT) -> (r: Self)
        ensures
            r@.len() == self@.len() + 1,
            forall|i: int| 0 <= i < self@.len() ==> r@[i] == self@[i],
            r@.last().variant == err,
            r@.last().ctx is None,
    {
        let mut stack = self.stack;
        stack.push(ErrFrame { variant: err, ctx: None });
        Self { stack }
    }

    /// Attach context to the most recent frame, if there is one.
    pub fn ctx(self, ctx: String) -> (r: Self)
        ensures
            r@.len() == self@.len(),
            forall|i: int| 0 <= i < self@.len() - 1 ==> r@[i] == self@[i],
            self@.len() >= 1 ==> {
                &&& r@.last().variant == self@.last().variant
                &&& r@.last().ctx == Some(ctx@)
            },
    {
        let mut stack = self.stack;
        match stack.pop() {
            Some(last) => {
                stack.push(ErrFrame { variant: last.variant, ctx: Some(ctx) });
                assert(stack@.map_values(|f: ErrFrame| f@) =~= self@.update(
                    self@.len() - 1,
                    ErrFrameModel { variant: self@.last().variant, ctx: Some(ctx@) },
                ));
            },
            None => {},
        }
        Self { stack }
    }

    /// The error kinds in the stack, most recently occurring first.
    ///
    /// Guaranteed to hold at least one entry for a stack built by
    /// [`ErrStack::new`], because that constructor installs an initial frame.
    pub fn jenga(&self) -> (r: Vec<ErrT>)
        ensures
            r@.len() == self@.len(),
            forall|i: int| 0 <= i < r@.len() ==> r@[i] == self@[self@.len() - 1 - i].variant,
    {
        let mut out: Vec<ErrT> = Vec::new();
        let n = self.stack.len();
        let mut i: usize = 0;
        while i < n
            invariant
                n == self@.len(),
                i <= n,
                out@.len() == i,
                forall|k: int| 0 <= k < i ==> out@[k] == self@[n - 1 - k].variant,
            decreases n - i,
        {
            out.push(self.stack[n - 1 - i].variant);
            i += 1;
        }
        out
    }

    /// Peek the most recent error that occurred.
    pub fn peek(&self) -> (r: ErrT)
        requires
            self.wf(),
        ensures
            r == self@.last().variant,
    {
        self.stack[self.stack.len() - 1].variant
    }

    /// Render the stack as one readable report, one indented line per
    /// frame, oldest first.
    pub fn render(&self) -> (r: String)
        ensures
            r@.len() > 0,
    {
        let mut out = String::from_str("Oops! One or more errors occurred;\n");
        proof {
            reveal_strlit("Oops! One or more errors occurred;\n");
        }
        let n = self.stack.len();
        let mut i: usize = 0;
        while i < n
            invariant
                i <= n,
                n == self@.len(),
                out@.len() > 0,
            decreases n - i,
        {
            let mut d: usize = 0;
            while d <= i
                invariant
                    i < n <= usize::MAX,
                    d <= i + 1,
                    out@.len() > 0,
                decreases i + 1 - d,
            {
                out.append("  ");
                d += 1;
            }
            out.append(self.stack[i].variant.name());
            out.append(" :: ");
            match self.stack[i].ctx {
                Some(ref ctx) => out.append(ctx.as_str()),
                None => out.append("details not available"),
            }
            out.append("\n");
            i += 1;
        }
        out
    }

    /// Whether the stack records a failed authentication anywhere; callers
    /// use this to distinguish "not allowed" from "broken".
    pub fn is_auth_failure(&self) -> (r: bool)
        ensures
            r == self.spec_is_auth_failure(),
    {
        let n = self.stack.len();
        let mut i: usize = 0;
        while i < n
            invariant
                n == self@.len(),
                i <= n,
                forall|k: int| 0 <= k < i ==> self@[k].variant != ErrT::AuthNotAuthenticated,
            decreases n - i,
        {
            if matches!(self.stack[i].variant, ErrT::AuthNotAuthenticated) {
                assert(self@[i as int].variant == ErrT::AuthNotAuthenticated);
                return true;
            }
            i += 1;
        }
        false
    }
}

} // verus!
