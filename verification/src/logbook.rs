//! The observation log: an append-only ordered sequence of observations,
//! persisted as a whole and loaded as a whole.
//!
//! The log has no identity of its own across intervals: each recording cycle
//! loads the persisted bytes, appends exactly one observation, and persists
//! the whole encoding again. A zero-length input is the empty log; any other
//! input that is not exactly an encoded log is malformed and loading fails.

use vstd::prelude::*;

use crate::codec::{
    dec_log, dec_obs, enc_log, enc_obs, decode_observation, encode_observation, lemma_enc_log_snoc,
    lemma_enc_obs_len, log_model_len_ok, obs_model_len_ok,
};
use crate::observation::{Observation, ObservationModel};

verus! {

/// Why loading persisted bytes failed.
#[derive(Clone, Copy, PartialEq, Eq, Structural, Debug)]
pub enum LoadError {
    /// The bytes are not the encoding of any log.
    Malformed,
}

/// The durable, append-only ordered sequence of observations of one
/// recording session. Entry order is append order is chronological order.
#[derive(Clone, PartialEq, Debug)]
pub struct ObservationLog {
    pub entries: Vec<Observation>,
}

impl View for ObservationLog {
    type V = Seq<ObservationModel>;

    open spec fn view(&self) -> Seq<ObservationModel> {
        Seq::new(self.entries@.len(), |i: int| self.entries@[i]@)
    }
}

impl ObservationLog {
    /// Every entry keeps one report per tag at most.
    pub open spec fn wf(self) -> bool {
        forall|i: int| 0 <= i < self.entries@.len() ==> (#[trigger] self.entries@[i]).wf()
    }

    /// The log with no observations.
    pub fn new() -> (l: ObservationLog)
        ensures
            l@ == Seq::<ObservationModel>::empty(),
            l.entries@.len() == 0,
            l.wf(),
    {
        let l = ObservationLog { entries: Vec::new() };
        proof {
            assert(l@ =~= Seq::<ObservationModel>::empty());
        }
        l
    }

    /// How many observations the log holds.
    pub fn len(&self) -> (n: usize)
        ensures
            n == self@.len(),
    {
        self.entries.len()
    }

    /// Appends one observation at the end; no existing entry is removed,
    /// reordered or changed.
    pub fn append(&mut self, obs: Observation)
        ensures
            final(self).entries@ == old(self).entries@.push(obs),
            final(self)@ == old(self)@.push(obs@),
            old(self).wf() && obs.wf() ==> final(self).wf(),
    {
        self.entries.push(obs);
        proof {
            assert(self@ =~= old(self)@.push(obs@));
        }
    }

    /// Every log that fits in memory has entries whose encoding can store
    /// each payload length in eight bytes.
    pub proof fn lemma_model_len_ok(self)
        ensures
            log_model_len_ok(self@),
    {
        assert forall|i: int| 0 <= i < self@.len() implies obs_model_len_ok(#[trigger] self@[i]) by {
            let o = self.entries@[i];
            if let Some(r) = o.device {
                r.lemma_payload_len_bound();
            }
            if let Some(r) = o.tpv {
                r.lemma_payload_len_bound();
            }
            if let Some(r) = o.sky {
                r.lemma_payload_len_bound();
            }
            if let Some(r) = o.pps {
                r.lemma_payload_len_bound();
            }
            if let Some(r) = o.gst {
                r.lemma_payload_len_bound();
            }
        }
    }

    /// Serialization round-trip for any log held in memory: decoding the
    /// encoding of its entries reproduces them exactly — same entries, same
    /// order, same per-tag slot contents.
    pub proof fn lemma_round_trip(self)
        ensures
            dec_log(enc_log(self@)) == Some(self@),
    {
        self.lemma_model_len_ok();
        crate::codec::lemma_serialization_round_trip(self@);
    }

    /// Serializes the whole log: the bytes to write over the destination
    /// file's previous contents.
    pub fn persist(&self) -> (out: Vec<u8>)
        ensures
            out@ == enc_log(self@),
    {
        let mut out: Vec<u8> = Vec::new();
        let mut i: usize = 0;
        proof {
            assert(self@.take(0) =~= Seq::<ObservationModel>::empty());
        }
        while i < self.entries.len()
            invariant
                i <= self.entries@.len(),
                self@.len() == self.entries@.len(),
                out@ == enc_log(self@.take(i as int)),
            decreases self.entries@.len() - i,
        {
            encode_observation(&mut out, &self.entries[i]);
            proof {
                lemma_enc_log_snoc(self@.take(i as int), self@[i as int]);
                assert(self@.take(i + 1 as int) =~= self@.take(i as int).push(self@[i as int]));
            }
            i = i + 1;
        }
        proof {
            assert(self@.take(self@.len() as int) =~= self@);
        }
        out
    }

    /// Deserializes persisted bytes into the log they encode.
    ///
    /// A zero-length input is the freshly created file and yields the empty
    /// log. Any input that is not exactly the encoding of a log yields
    /// [`LoadError::Malformed`], and only such inputs do.
    pub fn load(bytes: &Vec<u8>) -> (r: Result<ObservationLog, LoadError>)
        ensures
            match r {
                Ok(l) => {
                    &&& l.wf()
                    &&& dec_log(bytes@) == Some(l@)
                    &&& bytes@ == enc_log(l@)
                },
                Err(e) => {
                    &&& dec_log(bytes@) is None
                    &&& e == LoadError::Malformed
                },
            },
    {
        let mut log = ObservationLog::new();
        let mut pos: usize = 0;
        proof {
            assert(bytes@.take(0) =~= Seq::<u8>::empty());
            assert(bytes@.skip(0) =~= bytes@);
            if let Some(s) = dec_log(bytes@) {
                assert(log@ + s =~= s);
            }
        }
        while pos < bytes.len()
            invariant
                pos <= bytes@.len(),
                log.wf(),
                enc_log(log@) == bytes@.take(pos as int),
                dec_log(bytes@) == match dec_log(bytes@.skip(pos as int)) {
                    None => None::<Seq<ObservationModel>>,
                    Some(s) => Some(log@ + s),
                },
            decreases bytes@.len() - pos,
        {
            let ghost prefix = log@;
            let ghost s = bytes@.skip(pos as int);
            match decode_observation(bytes, pos) {
                None => {
                    proof {
                        assert(s.len() > 0);
                        assert(dec_log(s) is None);
                    }
                    return Err(LoadError::Malformed);
                },
                Some((obs, end)) => {
                    proof {
                        let rest = bytes@.skip(end as int);
                        lemma_enc_obs_len(obs@);
                        assert(rest.len() < s.len());
                        assert(dec_log(s) == match dec_log(rest) {
                            None => None::<Seq<ObservationModel>>,
                            Some(t) => Some(seq![obs@] + t),
                        });
                        if let Some(t) = dec_log(rest) {
                            assert(prefix + (seq![obs@] + t) =~= prefix.push(obs@) + t);
                        }
                        lemma_enc_log_snoc(prefix, obs@);
                        assert(bytes@.take(end as int) =~= bytes@.take(pos as int) + (enc_obs(obs@)
                            + rest).take(end - pos));
                        assert((enc_obs(obs@) + rest).take(end - pos) =~= enc_obs(obs@));
                    }
                    log.append(obs);
                    pos = end;
                },
            }
        }
        proof {
            assert(bytes@.skip(pos as int) =~= Seq::<u8>::empty());
            assert(dec_log(bytes@.skip(pos as int)) == Some(Seq::<ObservationModel>::empty()));
            assert(log@ + Seq::<ObservationModel>::empty() =~= log@);
            assert(bytes@.take(pos as int) =~= bytes@);
        }
        Ok(log)
    }
}

/// Log append monotonicity: one cycle's append adds exactly one entry at the
/// end, changes no earlier entry, and the bytes persisted after the append
/// extend the bytes persisted before it without changing them.
pub proof fn lemma_append_monotonicity(s: Seq<ObservationModel>, m: ObservationModel)
    ensures
        s.push(m).len() == s.len() + 1,
        s.push(m).last() == m,
        forall|i: int| 0 <= i < s.len() ==> s.push(m)[i] == s[i],
        enc_log(s.push(m)) == enc_log(s) + enc_obs(m),
        enc_log(s.push(m)).take(enc_log(s).len() as int) == enc_log(s),
{
    lemma_enc_log_snoc(s, m);
}

} // verus!
