//! Deferred diagnostics: errors and warnings collected during a parse and
//! judged once a phase is over.
use vstd::prelude::*;

verus! {

/// How serious a deferred diagnostic is.
#[derive(Clone, Copy, Debug, PartialEq, Eq, Structural)]
pub enum PureErrorLevel {
    Error,
    Warning,
}

/// One diagnostic: a message and its level.
#[derive(Debug)]
pub struct PureError {
    pub msg: String,
    pub level: PureErrorLevel,
}

/// A collection of diagnostics, kept in the order in which they were raised.
#[derive(Debug)]
pub struct PureErrorBuf {
    pub errors: Vec<PureError>,
}

/// A result together with the diagnostics raised while computing it.
pub struct PureSuccess<X> {
    pub deferred: PureErrorBuf,
    pub data: X,
}

/// The reason a computation failed, with the diagnostics raised before it.
pub struct Failure<E> {
    pub reason: E,
    pub deferred: PureErrorBuf,
}

/// The messages of the diagnostics of one level, in order.
pub open spec fn level_msgs(es: Seq<PureError>, level: PureErrorLevel) -> Seq<Seq<char>>
    decreases es.len(),
{
    if es.len() == 0 {
        Seq::empty()
    } else {
        let rest = level_msgs(es.drop_last(), level);
        if es.last().level == level {
            rest.push(es.last().msg@)
        } else {
            rest
        }
    }
}

/// Diagnostics built from messages, all of one level.
pub open spec fn msgs_at_level(msgs: Seq<String>, level: PureErrorLevel) -> Seq<(Seq<char>, PureErrorLevel)> {
    msgs.map_values(|m: String| (m@, level))
}

/// What a diagnostic says: its text and its level.
pub open spec fn describe(es: Seq<PureError>) -> Seq<(Seq<char>, PureErrorLevel)> {
    es.map_values(|e: PureError| (e.msg@, e.level))
}

/// The diagnostics of a sequence of buffers, one after another.
pub open spec fn concat_bufs(bs: Seq<PureErrorBuf>) -> Seq<PureError>
    decreases bs.len(),
{
    if bs.len() == 0 {
        Seq::empty()
    } else {
        concat_bufs(bs.drop_last()) + bs.last().errors@
    }
}

/// The diagnostics carried by a sequence of successes, one after another.
pub open spec fn concat_deferred<X>(xs: Seq<PureSuccess<X>>) -> Seq<PureError>
    decreases xs.len(),
{
    if xs.len() == 0 {
        Seq::empty()
    } else {
        concat_deferred(xs.drop_last()) + xs.last().deferred.errors@
    }
}

impl PureError {
    pub fn new_error(msg: String) -> (r: Self)
        ensures
            r.msg@ == msg@,
            r.level == PureErrorLevel::Error,
    {
        PureError { msg, level: PureErrorLevel::Error }
    }

    pub fn new_warning(msg: String) -> (r: Self)
        ensures
            r.msg@ == msg@,
            r.level == PureErrorLevel::Warning,
    {
        PureError { msg, level: PureErrorLevel::Warning }
    }

    pub fn new(msg: String, is_error: bool) -> (r: Self)
        ensures
            r.msg@ == msg@,
            r.level == (if is_error { PureErrorLevel::Error } else { PureErrorLevel::Warning }),
    {
        if is_error {
            Self::new_error(msg)
        } else {
            Self::new_warning(msg)
        }
    }
}

impl PureErrorBuf {
    pub fn new() -> (r: Self)
        ensures
            r.errors@.len() == 0,
    {
        PureErrorBuf { errors: Vec::new() }
    }

    pub fn from(msg: String, level: PureErrorLevel) -> (r: Self)
        ensures
            r.errors@.len() == 1,
            r.errors@[0].msg@ == msg@,
            r.errors@[0].level == level,
    {
        let mut errors = Vec::new();
        errors.push(PureError { msg, level });
        PureErrorBuf { errors }
    }

    pub fn concat(&mut self, other: Self)
        ensures
            final(self).errors@ == old(self).errors@ + other.errors@,
    {
        let mut o = other.errors;
        self.errors.append(&mut o);
    }

    pub fn chain(self, other: Self) -> (r: Self)
        ensures
            r.errors@ == self.errors@ + other.errors@,
    {
        let mut s = self;
        s.concat(other);
        s
    }

    pub fn from_many(msgs: Vec<String>, level: PureErrorLevel) -> (r: PureErrorBuf)
        ensures
            describe(r.errors@) == msgs_at_level(msgs@, level),
    {
        let mut errors: Vec<PureError> = Vec::new();
        let mut i: usize = 0;
        while i < msgs.len()
            invariant
                i <= msgs@.len(),
                describe(errors@) == msgs_at_level(msgs@.subrange(0, i as int), level),
            decreases msgs@.len() - i,
        {
            let ghost before = errors@;
            let msg = msgs[i].clone();
            errors.push(PureError { msg, level });
            assert(describe(errors@) =~= describe(before).push((msgs@[i as int]@, level)));
            i = i + 1;
            assert(msgs@.subrange(0, i as int) =~= msgs@.subrange(0, i - 1).push(msgs@[i - 1]));
            assert(describe(errors@) =~= msgs_at_level(msgs@.subrange(0, i as int), level));
        }
        assert(msgs@.subrange(0, msgs@.len() as int) == msgs@);
        PureErrorBuf { errors }
    }

    pub fn push(&mut self, e: PureError)
        ensures
            final(self).errors@ == old(self).errors@.push(e),
    {
        self.errors.push(e)
    }

    pub fn push_msg(&mut self, msg: String, level: PureErrorLevel)
        ensures
            final(self).errors@.len() == old(self).errors@.len() + 1,
            final(self).errors@.drop_last() == old(self).errors@,
            final(self).errors@.last().msg@ == msg@,
            final(self).errors@.last().level == level,
    {
        self.push(PureError { msg, level });
        assert(final(self).errors@.drop_last() =~= old(self).errors@);
    }

    pub fn push_msg_leveled(&mut self, msg: String, is_error: bool)
        ensures
            final(self).errors@.len() == old(self).errors@.len() + 1,
            final(self).errors@.drop_last() == old(self).errors@,
            final(self).errors@.last().msg@ == msg@,
            final(self).errors@.last().level == (if is_error {
                PureErrorLevel::Error
            } else {
                PureErrorLevel::Warning
            }),
    {
        if is_error {
            self.push_error(msg);
        } else {
            self.push_warning(msg);
        }
    }

    pub fn push_error(&mut self, msg: String)
        ensures
            final(self).errors@.len() == old(self).errors@.len() + 1,
            final(self).errors@.drop_last() == old(self).errors@,
            final(self).errors@.last().msg@ == msg@,
            final(self).errors@.last().level == PureErrorLevel::Error,
    {
        self.push_msg(msg, PureErrorLevel::Error)
    }

    pub fn push_warning(&mut self, msg: String)
        ensures
            final(self).errors@.len() == old(self).errors@.len() + 1,
            final(self).errors@.drop_last() == old(self).errors@,
            final(self).errors@.last().msg@ == msg@,
            final(self).errors@.last().level == PureErrorLevel::Warning,
    {
        self.push_msg(msg, PureErrorLevel::Warning)
    }

    pub fn has_errors(&self) -> (r: bool)
        ensures
            r == exists|i: int| 0 <= i < self.errors@.len() && self.errors@[i].level == PureErrorLevel::Error,
    {
        let mut i: usize = 0;
        while i < self.errors.len()
            invariant
                i <= self.errors@.len(),
                forall|j: int| 0 <= j < i ==> self.errors@[j].level != PureErrorLevel::Error,
            decreases self.errors@.len() - i,
        {
            if self.errors[i].level == PureErrorLevel::Error {
                return true;
            }
            i = i + 1;
        }
        false
    }

    pub fn split(self) -> (r: (Vec<String>, Vec<String>))
        ensures
            r.0@.map_values(|s: String| s@) == level_msgs(self.errors@, PureErrorLevel::Error),
            r.1@.map_values(|s: String| s@) == level_msgs(self.errors@, PureErrorLevel::Warning),
    {
        let errs = self.level_of(PureErrorLevel::Error);
        let warns = self.level_of(PureErrorLevel::Warning);
        (errs, warns)
    }

    pub fn into_errors(self) -> (r: Vec<String>)
        ensures
            r@.map_values(|s: String| s@) == level_msgs(self.errors@, PureErrorLevel::Error),
    {
        self.into_level(PureErrorLevel::Error)
    }

    pub fn into_warnings(self) -> (r: Vec<String>)
        ensures
            r@.map_values(|s: String| s@) == level_msgs(self.errors@, PureErrorLevel::Warning),
    {
        self.into_level(PureErrorLevel::Warning)
    }

    fn into_level(self, level: PureErrorLevel) -> (r: Vec<String>)
        ensures
            r@.map_values(|s: String| s@) == level_msgs(self.errors@, level),
    {
        self.level_of(level)
    }

    fn level_of(&self, level: PureErrorLevel) -> (r: Vec<String>)
        ensures
            r@.map_values(|s: String| s@) == level_msgs(self.errors@, level),
    {
        let mut out: Vec<String> = Vec::new();
        let mut i: usize = 0;
        while i < self.errors.len()
            invariant
                i <= self.errors@.len(),
                out@.map_values(|s: String| s@) == level_msgs(self.errors@.subrange(0, i as int), level),
            decreases self.errors@.len() - i,
        {
            let ghost before = out@;
            if self.errors[i].level == level {
                out.push(self.errors[i].msg.clone());
            }
            i = i + 1;
            assert(self.errors@.subrange(0, i as int).drop_last() =~= self.errors@.subrange(0, i - 1));
            assert(out@.map_values(|s: String| s@) =~= level_msgs(self.errors@.subrange(0, i as int), level));
        }
        assert(self.errors@.subrange(0, self.errors@.len() as int) =~= self.errors@);
        out
    }

    pub fn mconcat(xs: Vec<Self>) -> (r: Self)
        ensures
            r.errors@ == concat_bufs(xs@),
    {
        let ghost orig = xs@;
        let n = xs.len();
        let mut xs = xs;
        let mut errors: Vec<PureError> = Vec::new();
        let mut k: usize = 0;
        while xs.len() > 0
            invariant
                k + xs@.len() == orig.len(),
                orig.len() == n,
                xs@ == orig.subrange(k as int, orig.len() as int),
                errors@ == concat_bufs(orig.subrange(0, k as int)),
            decreases xs@.len(),
        {
            let mut next = xs.remove(0);
            errors.append(&mut next.errors);
            k = k + 1;
            assert(orig.subrange(0, k as int).drop_last() =~= orig.subrange(0, k - 1));
            assert(xs@ =~= orig.subrange(k as int, orig.len() as int));
        }
        assert(orig.subrange(0, orig.len() as int) =~= orig);
        PureErrorBuf { errors }
    }
}

impl<E> Failure<E> {
    pub fn new(reason: E) -> (r: Failure<E>)
        ensures
            r.reason == reason,
            r.deferred.errors@.len() == 0,
    {
        Failure { reason, deferred: PureErrorBuf::new() }
    }

    pub fn from_many(reason: E, deferred: PureErrorBuf) -> (r: Self)
        ensures
            r.reason == reason,
            r.deferred == deferred,
    {
        Failure { reason, deferred }
    }

    pub fn from_many_msgs(reason: E, msgs: Vec<String>, level: PureErrorLevel) -> (r: Self)
        ensures
            r.reason == reason,
            describe(r.deferred.errors@) == msgs_at_level(msgs@, level),
    {
        Self::from_many(reason, PureErrorBuf::from_many(msgs, level))
    }

    pub fn from_many_errors(reason: E, msgs: Vec<String>) -> (r: Self)
        ensures
            r.reason == reason,
            describe(r.deferred.errors@) == msgs_at_level(msgs@, PureErrorLevel::Error),
    {
        Self::from_many_msgs(reason, msgs, PureErrorLevel::Error)
    }

    pub fn map<X, F: FnOnce(E) -> X>(self, f: F) -> (r: Failure<X>)
        requires
            f.requires((self.reason,)),
        ensures
            f.ensures((self.reason,), r.reason),
            r.deferred == self.deferred,
    {
        Failure { reason: f(self.reason), deferred: self.deferred }
    }

    pub fn from_result<X>(res: Result<X, E>) -> (r: Result<X, Failure<E>>)
        ensures
            match res {
                Ok(x) => r == Ok::<X, Failure<E>>(x),
                Err(e) => r matches Err(f) && f.reason == e && f.deferred.errors@.len() == 0,
            },
    {
        match res {
            Ok(x) => Ok(x),
            Err(e) => Err(Failure::new(e)),
        }
    }

    pub fn extend(&mut self, other: PureErrorBuf)
        ensures
            final(self).reason == old(self).reason,
            final(self).deferred.errors@ == old(self).deferred.errors@ + other.errors@,
    {
        self.deferred.concat(other);
    }
}

impl<X> PureSuccess<X> {
    pub fn from(data: X) -> (r: Self)
        ensures
            r.data == data,
            r.deferred.errors@.len() == 0,
    {
        PureSuccess { data, deferred: PureErrorBuf::new() }
    }

    pub fn push(&mut self, e: PureError)
        ensures
            final(self).data == old(self).data,
            final(self).deferred.errors@ == old(self).deferred.errors@.push(e),
    {
        self.deferred.push(e)
    }

    pub fn push_msg(&mut self, msg: String, level: PureErrorLevel)
        ensures
            final(self).data == old(self).data,
            final(self).deferred.errors@.len() == old(self).deferred.errors@.len() + 1,
            final(self).deferred.errors@.drop_last() == old(self).deferred.errors@,
            final(self).deferred.errors@.last().msg@ == msg@,
            final(self).deferred.errors@.last().level == level,
    {
        self.deferred.push_msg(msg, level)
    }

    pub fn push_msg_leveled(&mut self, msg: String, is_error: bool)
        ensures
            final(self).data == old(self).data,
            final(self).deferred.errors@.len() == old(self).deferred.errors@.len() + 1,
            final(self).deferred.errors@.drop_last() == old(self).deferred.errors@,
            final(self).deferred.errors@.last().msg@ == msg@,
            final(self).deferred.errors@.last().level == (if is_error {
                PureErrorLevel::Error
            } else {
                PureErrorLevel::Warning
            }),
    {
        self.deferred.push_msg_leveled(msg, is_error)
    }

    pub fn push_error(&mut self, msg: String)
        ensures
            final(self).data == old(self).data,
            final(self).deferred.errors@.len() == old(self).deferred.errors@.len() + 1,
            final(self).deferred.errors@.drop_last() == old(self).deferred.errors@,
            final(self).deferred.errors@.last().msg@ == msg@,
            final(self).deferred.errors@.last().level == PureErrorLevel::Error,
    {
        self.deferred.push_error(msg)
    }

    pub fn push_warning(&mut self, msg: String)
        ensures
            final(self).data == old(self).data,
            final(self).deferred.errors@.len() == old(self).deferred.errors@.len() + 1,
            final(self).deferred.errors@.drop_last() == old(self).deferred.errors@,
            final(self).deferred.errors@.last().msg@ == msg@,
            final(self).deferred.errors@.last().level == PureErrorLevel::Warning,
    {
        self.deferred.push_warning(msg)
    }

    pub fn extend(&mut self, es: PureErrorBuf)
        ensures
            final(self).data == old(self).data,
            final(self).deferred.errors@ == old(self).deferred.errors@ + es.errors@,
    {
        self.deferred.concat(es)
    }

    pub fn map<Y, F: FnOnce(X) -> Y>(self, f: F) -> (r: PureSuccess<Y>)
        requires
            f.requires((self.data,)),
        ensures
            f.ensures((self.data,), r.data),
            r.deferred == self.deferred,
    {
        let data = f(self.data);
        PureSuccess { data, deferred: self.deferred }
    }

    /// Feeds the data to `f`; the diagnostics of `f`'s result come first,
    /// then those carried so far.
    pub fn and_then<Y, F: FnOnce(X) -> PureSuccess<Y>>(self, f: F) -> (r: PureSuccess<Y>)
        requires
            f.requires((self.data,)),
        ensures
            exists|out: PureSuccess<Y>|
                f.ensures((self.data,), out) && r.data == out.data && r.deferred.errors@
                    == out.deferred.errors@ + self.deferred.errors@,
    {
        let mut new = f(self.data);
        let ghost out = new;
        new.extend(self.deferred);
        new
    }

    pub fn try_map<E, Y, F>(self, f: F) -> (r: Result<PureSuccess<Y>, Failure<E>>)
        where
            F: FnOnce(X) -> Result<PureSuccess<Y>, Failure<E>>,
        requires
            f.requires((self.data,)),
        ensures
            exists|out: Result<PureSuccess<Y>, Failure<E>>|
                f.ensures((self.data,), out) && match out {
                    Ok(n) => r matches Ok(m) && m.data == n.data && m.deferred.errors@
                        == n.deferred.errors@ + self.deferred.errors@,
                    Err(n) => r matches Err(m) && m.reason == n.reason && m.deferred.errors@
                        == n.deferred.errors@ + self.deferred.errors@,
                },
    {
        let res = f(self.data);
        let ghost out = res;
        match res {
            Ok(mut new) => {
                new.extend(self.deferred);
                Ok(new)
            },
            Err(mut err) => {
                err.extend(self.deferred);
                Err(err)
            },
        }
    }

    pub fn combine<Y, Z, F: FnOnce(X, Y) -> Z>(self, other: PureSuccess<Y>, f: F) -> (r: PureSuccess<Z>)
        requires
            f.requires((self.data, other.data)),
        ensures
            f.ensures((self.data, other.data), r.data),
            r.deferred.errors@ == self.deferred.errors@ + other.deferred.errors@,
    {
        PureSuccess { data: f(self.data, other.data), deferred: self.deferred.chain(other.deferred) }
    }

    pub fn sequence(xs: Vec<PureSuccess<X>>) -> (r: PureSuccess<Vec<X>>)
        ensures
            r.data@ == xs@.map_values(|x: PureSuccess<X>| x.data),
            r.deferred.errors@ == concat_deferred(xs@),
    {
        let ghost orig = xs@;
        let n = xs.len();
        let mut xs = xs;
        let mut data: Vec<X> = Vec::new();
        let mut errors: Vec<PureError> = Vec::new();
        let mut k: usize = 0;
        while xs.len() > 0
            invariant
                k + xs@.len() == orig.len(),
                orig.len() == n,
                xs@ == orig.subrange(k as int, orig.len() as int),
                data@ == orig.subrange(0, k as int).map_values(|x: PureSuccess<X>| x.data),
                errors@ == concat_deferred(orig.subrange(0, k as int)),
            decreases xs@.len(),
        {
            let next = xs.remove(0);
            let PureSuccess { deferred, data: d } = next;
            let mut es = deferred.errors;
            data.push(d);
            errors.append(&mut es);
            k = k + 1;
            assert(orig.subrange(0, k as int).drop_last() =~= orig.subrange(0, k - 1));
            assert(xs@ =~= orig.subrange(k as int, orig.len() as int));
            assert(data@ =~= orig.subrange(0, k as int).map_values(|x: PureSuccess<X>| x.data));
        }
        assert(orig.subrange(0, orig.len() as int) =~= orig);
        PureSuccess { data, deferred: PureErrorBuf { errors } }
    }

    pub fn combine3<A, B, Y, F: FnOnce(X, A, B) -> Y>(
        self,
        a: PureSuccess<A>,
        b: PureSuccess<B>,
        f: F,
    ) -> (r: PureSuccess<Y>)
        requires
            f.requires((self.data, a.data, b.data)),
        ensures
            f.ensures((self.data, a.data, b.data), r.data),
            r.deferred.errors@ == self.deferred.errors@ + a.deferred.errors@ + b.deferred.errors@,
    {
        PureSuccess {
            data: f(self.data, a.data, b.data),
            deferred: self.deferred.chain(a.deferred).chain(b.deferred),
        }
    }

    pub fn combine4<A, B, C, Y, F: FnOnce(X, A, B, C) -> Y>(
        self,
        a: PureSuccess<A>,
        b: PureSuccess<B>,
        c: PureSuccess<C>,
        f: F,
    ) -> (r: PureSuccess<Y>)
        requires
            f.requires((self.data, a.data, b.data, c.data)),
        ensures
            f.ensures((self.data, a.data, b.data, c.data), r.data),
            r.deferred.errors@ == self.deferred.errors@ + a.deferred.errors@ + b.deferred.errors@
                + c.deferred.errors@,
    {
        PureSuccess {
            data: f(self.data, a.data, b.data, c.data),
            deferred: self.deferred.chain(a.deferred).chain(b.deferred).chain(c.deferred),
        }
    }

    pub fn combine_result<E, F, Y, Z>(
        self,
        other: Result<PureSuccess<Y>, Failure<E>>,
        f: F,
    ) -> (r: Result<PureSuccess<Z>, Failure<E>>)
        where
            F: FnOnce(X, Y) -> Z,
        requires
            other matches Ok(p) ==> f.requires((self.data, p.data)),
        ensures
            match other {
                Ok(p) => r matches Ok(m) && f.ensures((self.data, p.data), m.data)
                    && m.deferred.errors@ == self.deferred.errors@ + p.deferred.errors@,
                Err(e) => r matches Err(m) && m.reason == e.reason && m.deferred.errors@
                    == e.deferred.errors@ + self.deferred.errors@,
            },
    {
        match other {
            Ok(pass) => Ok(self.combine(pass, f)),
            Err(mut fail) => {
                fail.extend(self.deferred);
                Err(fail)
            },
        }
    }

    pub fn combine_some_result<E, F, Y, Z>(self, other: Result<Y, Failure<E>>, f: F) -> (r: Result<
        PureSuccess<Z>,
        Failure<E>,
    >)
        where
            F: FnOnce(X, Y) -> Z,
        requires
            other matches Ok(p) ==> f.requires((self.data, p)),
        ensures
            match other {
                Ok(p) => r matches Ok(m) && f.ensures((self.data, p), m.data) && m.deferred
                    == self.deferred,
                Err(e) => r matches Err(m) && m.reason == e.reason && m.deferred.errors@
                    == e.deferred.errors@ + self.deferred.errors@,
            },
    {
        match other {
            Ok(pass) => Ok(PureSuccess { data: f(self.data, pass), deferred: self.deferred }),
            Err(mut fail) => {
                fail.extend(self.deferred);
                Err(fail)
            },
        }
    }
}

/// A computation that may have produced nothing, with its diagnostics.
pub type PureMaybe<X> = PureSuccess<Option<X>>;

impl<X> PureSuccess<Option<X>> {
    pub fn empty() -> (r: PureMaybe<X>)
        ensures
            r.data is None,
            r.deferred.errors@.len() == 0,
    {
        PureSuccess::from(None)
    }

    pub fn map_maybe<Y, F: FnOnce(X) -> Y>(self, f: F) -> (r: PureMaybe<Y>)
        requires
            self.data matches Some(d) ==> f.requires((d,)),
        ensures
            r.deferred == self.deferred,
            match self.data {
                Some(d) => r.data matches Some(y) && f.ensures((d,), y),
                None => r.data is None,
            },
    {
        let PureSuccess { deferred, data } = self;
        match data {
            Some(d) => PureSuccess { data: Some(f(d)), deferred },
            None => PureSuccess { data: None, deferred },
        }
    }

    pub fn into_result(self, reason: String) -> (r: Result<PureSuccess<X>, Failure<String>>)
        ensures
            match self.data {
                Some(d) => r matches Ok(s) && s.data == d && s.deferred == self.deferred,
                None => r matches Err(f) && f.reason == reason && f.deferred == self.deferred,
            },
    {
        let PureSuccess { deferred, data } = self;
        match data {
            Some(d) => Ok(PureSuccess { data: d, deferred }),
            None => Err(Failure { reason, deferred }),
        }
    }

    pub fn from_result_1(res: Result<X, String>, level: PureErrorLevel) -> (r: Self)
        ensures
            match res {
                Ok(x) => r.data == Some(x) && r.deferred.errors@.len() == 0,
                Err(m) => r.data is None && r.deferred.errors@.len() == 1
                    && r.deferred.errors@[0].msg@ == m@ && r.deferred.errors@[0].level == level,
            },
    {
        match res {
            Ok(data) => PureSuccess::from(Some(data)),
            Err(msg) => PureSuccess { data: None, deferred: PureErrorBuf::from(msg, level) },
        }
    }

    pub fn from_result(res: Result<X, PureErrorBuf>) -> (r: Self)
        ensures
            match res {
                Ok(x) => r.data == Some(x) && r.deferred.errors@.len() == 0,
                Err(b) => r.data is None && r.deferred == b,
            },
    {
        match res {
            Ok(data) => PureSuccess::from(Some(data)),
            Err(deferred) => PureSuccess { data: None, deferred },
        }
    }

    pub fn from_result_strs(res: Result<X, Vec<String>>, level: PureErrorLevel) -> (r: Self)
        ensures
            match res {
                Ok(x) => r.data == Some(x) && r.deferred.errors@.len() == 0,
                Err(ms) => r.data is None && describe(r.deferred.errors@) == msgs_at_level(
                    ms@,
                    level,
                ),
            },
    {
        match res {
            Ok(data) => PureSuccess::from(Some(data)),
            Err(msgs) => PureSuccess { data: None, deferred: PureErrorBuf::from_many(msgs, level) },
        }
    }

    pub fn from_result_errors(res: Result<X, Vec<String>>) -> (r: Self)
        ensures
            match res {
                Ok(x) => r.data == Some(x) && r.deferred.errors@.len() == 0,
                Err(ms) => r.data is None && describe(r.deferred.errors@) == msgs_at_level(
                    ms@,
                    PureErrorLevel::Error,
                ),
            },
    {
        Self::from_result_strs(res, PureErrorLevel::Error)
    }

    pub fn and_then_opt<Y, F: FnOnce(X) -> PureMaybe<Y>>(self, f: F) -> (r: PureMaybe<Y>)
        requires
            self.data matches Some(d) ==> f.requires((d,)),
        ensures
            match self.data {
                Some(d) => exists|out: PureMaybe<Y>|
                    f.ensures((d,), out) && r.data == out.data && r.deferred.errors@
                        == out.deferred.errors@ + self.deferred.errors@,
                None => r.data is None && r.deferred == self.deferred,
            },
    {
        let PureSuccess { deferred, data } = self;
        match data {
            Some(d) => {
                let mut new = f(d);
                let ghost out = new;
                new.extend(deferred);
                new
            },
            None => PureSuccess { data: None, deferred },
        }
    }
}

#[verifier::external_type_specification]
#[verifier::external_body]
pub struct ExIoError(std::io::Error);

/// A failure that is either pure or comes from reading the file.
pub enum ImpureError {
    IO(std::io::Error),
    Pure(String),
}

impl Failure<String> {
    /// The same failure, as one that may also come from reading.
    pub fn into_impure(self) -> (r: Failure<ImpureError>)
        ensures
            r.reason matches ImpureError::Pure(m) && m == self.reason,
            r.deferred == self.deferred,
    {
        Failure { reason: ImpureError::Pure(self.reason), deferred: self.deferred }
    }
}

impl Failure<ImpureError> {
    /// A failure to read, with nothing deferred.
    pub fn from_io(e: std::io::Error) -> (r: Failure<ImpureError>)
        ensures
            r.reason is IO,
            r.deferred.errors@.len() == 0,
    {
        Failure::new(ImpureError::IO(e))
    }
}

} // verus!
