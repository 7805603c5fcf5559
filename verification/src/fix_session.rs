//! A FIX 4.4 market data session: the messages it sends, each framed with
//! BeginString, BodyLength and CheckSum, and its outgoing sequence number.
use vstd::prelude::*;
use vstd::string::StringExecFns;
use crate::fix_signing::{base64_text, sign_payload, signature_text};
use crate::text::{
    FieldEntry, SOH, append_field, checksum_chars, checksum_of, decimal, decimal_string, field_text,
    fields_text, is_digit, push_decimal, push_field, utf8_len,
};

verus! {

/// The BeginString value `FIX.4.4`.
pub open spec fn fix_version() -> Seq<char> {
    seq!['F', 'I', 'X', '.', '4', '.', '4']
}

/// The header fields of a message with the given body: BeginString, then
/// BodyLength, the number of bytes of the body.
pub open spec fn header_entries(body: Seq<char>) -> Seq<FieldEntry> {
    seq![(8nat, fix_version()), (9nat, decimal(utf8_len(body)))]
}

/// `m` followed by its CheckSum field.
pub open spec fn with_trailer(m: Seq<char>) -> Seq<char> {
    m + field_text(10, checksum_chars(m))
}

/// The complete message of the given body fields: header, body, checksum.
pub open spec fn framed_message(body: Seq<FieldEntry>) -> Seq<char> {
    with_trailer(fields_text(header_entries(fields_text(body))) + fields_text(body))
}

/// Whether `c` is a character that the session timestamp format
/// (`%Y%m%d-%H:%M:%S%.3f`) can produce.
pub open spec fn is_timestamp_char(c: char) -> bool {
    is_digit(c) || c == '-' || c == '+' || c == ':' || c == '.'
}

/// Whether `ts` is made of timestamp characters only.
pub open spec fn is_timestamp_text(ts: Seq<char>) -> bool {
    forall|i: int| 0 <= i < ts.len() ==> is_timestamp_char(#[trigger] ts[i])
}

/// The abstract state of a session.
pub struct FixSessionView {
    pub api_key: Seq<char>,
    pub private_key: Seq<u8>,
    pub sender_comp_id: Seq<char>,
    pub target_comp_id: Seq<char>,
    pub msg_seq_num: nat,
    pub heartbeat_interval: nat,
}

/// The payload the logon signature covers: MsgType, SenderCompID,
/// TargetCompID, MsgSeqNum and SendingTime, separated by SOH.
pub open spec fn logon_payload(v: FixSessionView, ts: Seq<char>) -> Seq<char> {
    seq!['A', SOH] + v.sender_comp_id + seq![SOH] + v.target_comp_id + seq![SOH] + decimal(
        v.msg_seq_num,
    ) + seq![SOH] + ts
}

/// The body fields of a Logon carrying the signature `sig`.
pub open spec fn logon_entries(v: FixSessionView, ts: Seq<char>, sig: Seq<char>) -> Seq<
    FieldEntry,
> {
    seq![
        (35nat, seq!['A']),
        (49nat, v.sender_comp_id),
        (56nat, v.target_comp_id),
        (34nat, decimal(v.msg_seq_num)),
        (52nat, ts),
        (98nat, seq!['0']),
        (108nat, decimal(v.heartbeat_interval)),
        (141nat, seq!['Y']),
        (553nat, v.api_key),
        (25035nat, seq!['1']),
        (95nat, decimal(utf8_len(sig))),
        (96nat, sig),
    ]
}

/// The Logon message sent at time `ts`, signed with the session key.
pub open spec fn logon_message(v: FixSessionView, ts: Seq<char>) -> Seq<char> {
    framed_message(
        logon_entries(v, ts, signature_text(v.private_key, logon_payload(v, ts))),
    )
}

/// The body fields of a MarketDataRequest subscribing to 10 levels of bids
/// and offers of `symbol`.
pub open spec fn market_data_request_entries(
    v: FixSessionView,
    ts: Seq<char>,
    symbol: Seq<char>,
) -> Seq<FieldEntry> {
    seq![
        (35nat, seq!['V']),
        (49nat, v.sender_comp_id),
        (56nat, v.target_comp_id),
        (34nat, decimal(v.msg_seq_num)),
        (52nat, ts),
        (262nat, seq!['R', 'E', 'Q'] + decimal(v.msg_seq_num)),
        (263nat, seq!['1']),
        (264nat, seq!['1', '0']),
        (146nat, seq!['1']),
        (55nat, symbol),
        (267nat, seq!['2']),
        (269nat, seq!['0']),
        (269nat, seq!['1']),
    ]
}

/// The MarketDataRequest for `symbol` sent at time `ts`.
pub open spec fn market_data_request_message(
    v: FixSessionView,
    ts: Seq<char>,
    symbol: Seq<char>,
) -> Seq<char> {
    framed_message(market_data_request_entries(v, ts, symbol))
}

/// The Heartbeat sent at time `ts` (BeginString and header fields, no
/// BodyLength, then the CheckSum).
pub open spec fn heartbeat_message(v: FixSessionView, ts: Seq<char>) -> Seq<char> {
    with_trailer(
        fields_text(
            seq![
                (8nat, fix_version()),
                (35nat, seq!['0']),
                (49nat, v.sender_comp_id),
                (56nat, v.target_comp_id),
                (34nat, decimal(v.msg_seq_num)),
                (52nat, ts),
            ],
        ),
    )
}

/// The Logout sent at time `ts`, with a fixed CheckSum of `000`.
pub open spec fn logout_message(v: FixSessionView, ts: Seq<char>) -> Seq<char> {
    fields_text(
        seq![
            (8nat, fix_version()),
            (35nat, seq!['5']),
            (34nat, decimal(v.msg_seq_num)),
            (52nat, ts),
            (10nat, seq!['0', '0', '0']),
        ],
    )
}

/// Whether the session has this library's fixed identities: sender
/// `RUST001`, target `SPOT`, and a 30-second heartbeat interval.
pub open spec fn has_standard_ids(v: FixSessionView) -> bool {
    &&& v.sender_comp_id == seq!['R', 'U', 'S', 'T', '0', '0', '1']
    &&& v.target_comp_id == seq!['S', 'P', 'O', 'T']
    &&& v.heartbeat_interval == 30
}

/// The session after one more message was sent.
pub open spec fn advanced(v: FixSessionView) -> FixSessionView {
    FixSessionView { msg_seq_num: v.msg_seq_num + 1, ..v }
}

/// The `YYYYMMDD-HH:MM:SS.mmm` text `chrono` gives of the UTC time `secs`
/// seconds and `nanos` nanoseconds after the Unix epoch, or `None` when
/// `DateTime::from_timestamp` does not represent that time.
pub uninterp spec fn utc_timestamp_text(secs: i64, nanos: u32) -> Option<Seq<char>>;

/// `std::time::UNIX_EPOCH.elapsed()`: the time since the Unix epoch as whole
/// seconds and the nanoseconds below one second, or `None` when the system
/// clock reads before the epoch. Which time it is is not stated; only that
/// the nanoseconds are below one second, as `Duration::subsec_nanos` gives them.
#[verifier::external_body]
fn time_since_epoch() -> (r: Option<(u64, u32)>)
    ensures
        r matches Some((_, n)) ==> n < 1_000_000_000,
{
    std::time::UNIX_EPOCH.elapsed().ok().map(|d| (d.as_secs(), d.subsec_nanos()))
}

/// `chrono::DateTime::from_timestamp(secs, nanos)` formatted with
/// `%Y%m%d-%H:%M:%S%.3f`: the text named by `utc_timestamp_text`, made of
/// digits and `-+:.` only, as that format writes a date and a time.
#[verifier::external_body]
fn utc_text(secs: i64, nanos: u32) -> (r: Option<String>)
    ensures
        match r {
            Some(t) => utc_timestamp_text(secs, nanos) == Some(t@) && is_timestamp_text(t@),
            None => utc_timestamp_text(secs, nanos) is None,
        },
{
    chrono::DateTime::from_timestamp(secs, nanos).map(
        |t| t.format("%Y%m%d-%H:%M:%S%.3f").to_string(),
    )
}

/// A FIX market data session with its credentials and sequence number.
pub struct FixSession {
    api_key: String,
    private_key: Vec<u8>,
    sender_comp_id: String,
    target_comp_id: String,
    msg_seq_num: u32,
    heartbeat_interval: u32,
}

impl View for FixSession {
    type V = FixSessionView;

    closed spec fn view(&self) -> FixSessionView {
        FixSessionView {
            api_key: self.api_key@,
            private_key: self.private_key@,
            sender_comp_id: self.sender_comp_id@,
            target_comp_id: self.target_comp_id@,
            msg_seq_num: self.msg_seq_num as nat,
            heartbeat_interval: self.heartbeat_interval as nat,
        }
    }
}

impl FixSession {
    /// Every session keeps the identities it was created with.
    #[verifier::type_invariant]
    pub(crate) open spec fn ids_fixed(&self) -> bool {
        has_standard_ids(self@)
    }
}

/// Completes a message body with its header and checksum.
fn frame_body(body: &String, Ghost(entries): Ghost<Seq<FieldEntry>>) -> (m: String)
    requires
        body@ == fields_text(entries),
    ensures
        m@ == framed_message(entries),
{
    let body_len = body.as_str().as_bytes().len();
    let mut m = String::new();
    let ghost e0 = Seq::<FieldEntry>::empty();
    push_field(&mut m, 8, "FIX.4.4", Ghost(e0));
    let len_text = decimal_string(body_len as u64);
    let ghost e1 = e0.push((8nat, "FIX.4.4"@));
    push_field(&mut m, 9, len_text.as_str(), Ghost(e1));
    proof {
        reveal_strlit("FIX.4.4");
        assert(e1.push((9nat, len_text@)) =~~= header_entries(body@));
    }
    m.append(body.as_str());
    let checksum = checksum_of(m.as_str());
    append_field(&mut m, 10, checksum.as_str());
    m
}

impl FixSession {
    /// A session for the given credentials: sender `RUST001`, target
    /// `SPOT`, sequence number 1 and a 30-second heartbeat interval.
    pub fn new(api_key: String, private_key: Vec<u8>) -> (s: Self)
        ensures
            s@ == (FixSessionView {
                api_key: api_key@,
                private_key: private_key@,
                sender_comp_id: seq!['R', 'U', 'S', 'T', '0', '0', '1'],
                target_comp_id: seq!['S', 'P', 'O', 'T'],
                msg_seq_num: 1,
                heartbeat_interval: 30,
            }),
    {
        let sender_comp_id = String::from_str("RUST001");
        let target_comp_id = String::from_str("SPOT");
        proof {
            reveal_strlit("RUST001");
            reveal_strlit("SPOT");
        }
        assert(sender_comp_id@ =~= seq!['R', 'U', 'S', 'T', '0', '0', '1']);
        assert(target_comp_id@ =~= seq!['S', 'P', 'O', 'T']);
        let s = FixSession {
            api_key,
            private_key,
            sender_comp_id,
            target_comp_id,
            msg_seq_num: 1,
            heartbeat_interval: 30,
        };
        assert(s@.sender_comp_id =~= seq!['R', 'U', 'S', 'T', '0', '0', '1']);
        assert(s@.target_comp_id =~= seq!['S', 'P', 'O', 'T']);
        s
    }

    /// The sequence number the next message will carry.
    pub fn msg_seq_num(&self) -> (n: u32)
        ensures
            n == self@.msg_seq_num,
            has_standard_ids(self@),
    {
        proof {
            use_type_invariant(self);
        }
        self.msg_seq_num
    }

    /// The current UTC time as `YYYYMMDD-HH:MM:SS.mmm`, or `None` when the
    /// system clock reads before the Unix epoch or past what `chrono`
    /// represents. Which time it is is not stated.
    fn get_timestamp(&self) -> (ts: Option<String>)
        ensures
            ts matches Some(t) ==> is_timestamp_text(t@),
    {
        match time_since_epoch() {
            Some((secs, nanos)) => if secs <= 0x7fff_ffff_ffff_ffff {
                utc_text(secs as i64, nanos)
            } else {
                None
            },
            None => None,
        }
    }

    /// The FIX checksum of `message`: the sum of its bytes modulo 256, in three digits.
    pub fn calculate_checksum(&self, message: &str) -> (c: String)
        ensures
            c@ == checksum_chars(message@),
    {
        checksum_of(message)
    }

    /// The Logon message at time `timestamp`: the header fields, EncryptMethod
    /// 0, the heartbeat interval, ResetSeqNumFlag Y, the API key as Username,
    /// MessageHandling 1, and the Ed25519 signature of the logon payload as
    /// RawData with its byte length as RawDataLength. Advances the sequence number.
    pub fn build_logon_at(&mut self, timestamp: &str) -> (msg: String)
        requires
            old(self)@.msg_seq_num < u32::MAX,
        ensures
            msg@ == logon_message(old(self)@, timestamp@),
            final(self)@ == advanced(old(self)@),
            has_standard_ids(final(self)@),
            base64_text(signature_text(old(self)@.private_key, logon_payload(old(self)@, timestamp@))),
    {
        proof {
            use_type_invariant(&*self);
        }
        let mut payload = String::new();
        payload.push('A');
        payload.push(SOH);
        payload.append(self.sender_comp_id.as_str());
        payload.push(SOH);
        payload.append(self.target_comp_id.as_str());
        payload.push(SOH);
        push_decimal(&mut payload, self.msg_seq_num as u64);
        payload.push(SOH);
        payload.append(timestamp);
        assert(payload@ =~= logon_payload(self@, timestamp@));
        let signature = sign_payload(self.private_key.as_slice(), payload.as_str());
        let sig_len = signature.as_str().as_bytes().len();

        let seq_text = decimal_string(self.msg_seq_num as u64);
        let hb_text = decimal_string(self.heartbeat_interval as u64);
        let sig_len_text = decimal_string(sig_len as u64);
        let mut body = String::new();
        let ghost e0 = Seq::<FieldEntry>::empty();
        push_field(&mut body, 35, "A", Ghost(e0));
        let ghost e1 = e0.push((35nat, "A"@));
        push_field(&mut body, 49, self.sender_comp_id.as_str(), Ghost(e1));
        let ghost e2 = e1.push((49nat, self.sender_comp_id@));
        push_field(&mut body, 56, self.target_comp_id.as_str(), Ghost(e2));
        let ghost e3 = e2.push((56nat, self.target_comp_id@));
        push_field(&mut body, 34, seq_text.as_str(), Ghost(e3));
        let ghost e4 = e3.push((34nat, seq_text@));
        push_field(&mut body, 52, timestamp, Ghost(e4));
        let ghost e5 = e4.push((52nat, timestamp@));
        push_field(&mut body, 98, "0", Ghost(e5));
        let ghost e6 = e5.push((98nat, "0"@));
        push_field(&mut body, 108, hb_text.as_str(), Ghost(e6));
        let ghost e7 = e6.push((108nat, hb_text@));
        push_field(&mut body, 141, "Y", Ghost(e7));
        let ghost e8 = e7.push((141nat, "Y"@));
        push_field(&mut body, 553, self.api_key.as_str(), Ghost(e8));
        let ghost e9 = e8.push((553nat, self.api_key@));
        push_field(&mut body, 25035, "1", Ghost(e9));
        let ghost e10 = e9.push((25035nat, "1"@));
        push_field(&mut body, 95, sig_len_text.as_str(), Ghost(e10));
        let ghost e11 = e10.push((95nat, sig_len_text@));
        push_field(&mut body, 96, signature.as_str(), Ghost(e11));
        let ghost e12 = e11.push((96nat, signature@));
        proof {
            reveal_strlit("A");
            reveal_strlit("0");
            reveal_strlit("Y");
            reveal_strlit("1");
            assert(e12 =~~= logon_entries(self@, timestamp@, signature@));
        }
        let msg = frame_body(&body, Ghost(e12));
        self.msg_seq_num = self.msg_seq_num + 1;
        msg
    }

    /// The Logon message at the current time, advancing the sequence number;
    /// `None`, with the session unchanged, when the clock cannot be read.
    pub fn build_logon(&mut self) -> (msg: Option<String>)
        requires
            old(self)@.msg_seq_num < u32::MAX,
        ensures
            match msg {
                Some(m) => (exists|ts: Seq<char>| #[trigger]
                    is_timestamp_text(ts) && m@ == logon_message(old(self)@, ts)) && final(self)@
                    == advanced(old(self)@),
                None => final(self)@ == old(self)@,
            },
    {
        match self.get_timestamp() {
            Some(timestamp) => Some(self.build_logon_at(timestamp.as_str())),
            None => None,
        }
    }

    /// The MarketDataRequest at time `timestamp`: subscribe (263=1) to 10
    /// levels (264=10) of bids and offers (269=0, 269=1) of `symbol`, with
    /// request id `REQ` followed by the sequence number. Advances the
    /// sequence number.
    pub fn build_market_data_request_at(&mut self, symbol: &str, timestamp: &str) -> (msg: String)
        requires
            old(self)@.msg_seq_num < u32::MAX,
        ensures
            msg@ == market_data_request_message(old(self)@, timestamp@, symbol@),
            final(self)@ == advanced(old(self)@),
            has_standard_ids(final(self)@),
    {
        proof {
            use_type_invariant(&*self);
        }
        let seq_text = decimal_string(self.msg_seq_num as u64);
        let mut req_id = String::from_str("REQ");
        push_decimal(&mut req_id, self.msg_seq_num as u64);
        let mut body = String::new();
        let ghost e0 = Seq::<FieldEntry>::empty();
        push_field(&mut body, 35, "V", Ghost(e0));
        let ghost e1 = e0.push((35nat, "V"@));
        push_field(&mut body, 49, self.sender_comp_id.as_str(), Ghost(e1));
        let ghost e2 = e1.push((49nat, self.sender_comp_id@));
        push_field(&mut body, 56, self.target_comp_id.as_str(), Ghost(e2));
        let ghost e3 = e2.push((56nat, self.target_comp_id@));
        push_field(&mut body, 34, seq_text.as_str(), Ghost(e3));
        let ghost e4 = e3.push((34nat, seq_text@));
        push_field(&mut body, 52, timestamp, Ghost(e4));
        let ghost e5 = e4.push((52nat, timestamp@));
        push_field(&mut body, 262, req_id.as_str(), Ghost(e5));
        let ghost e6 = e5.push((262nat, req_id@));
        push_field(&mut body, 263, "1", Ghost(e6));
        let ghost e7 = e6.push((263nat, "1"@));
        push_field(&mut body, 264, "10", Ghost(e7));
        let ghost e8 = e7.push((264nat, "10"@));
        push_field(&mut body, 146, "1", Ghost(e8));
        let ghost e9 = e8.push((146nat, "1"@));
        push_field(&mut body, 55, symbol, Ghost(e9));
        let ghost e10 = e9.push((55nat, symbol@));
        push_field(&mut body, 267, "2", Ghost(e10));
        let ghost e11 = e10.push((267nat, "2"@));
        push_field(&mut body, 269, "0", Ghost(e11));
        let ghost e12 = e11.push((269nat, "0"@));
        push_field(&mut body, 269, "1", Ghost(e12));
        let ghost e13 = e12.push((269nat, "1"@));
        proof {
            reveal_strlit("REQ");
            reveal_strlit("V");
            reveal_strlit("1");
            reveal_strlit("10");
            reveal_strlit("2");
            reveal_strlit("0");
            assert(req_id@ =~= seq!['R', 'E', 'Q'] + decimal(self@.msg_seq_num));
            assert(e13 =~~= market_data_request_entries(self@, timestamp@, symbol@));
        }
        let msg = frame_body(&body, Ghost(e13));
        self.msg_seq_num = self.msg_seq_num + 1;
        msg
    }

    /// The MarketDataRequest for `symbol` at the current time, advancing the
    /// sequence number; `None`, with the session unchanged, when the clock
    /// cannot be read.
    pub fn build_market_data_request(&mut self, symbol: &str) -> (msg: Option<String>)
        requires
            old(self)@.msg_seq_num < u32::MAX,
        ensures
            match msg {
                Some(m) => (exists|ts: Seq<char>| #[trigger]
                    is_timestamp_text(ts) && m@ == market_data_request_message(
                        old(self)@,
                        ts,
                        symbol@,
                    )) && final(self)@ == advanced(old(self)@),
                None => final(self)@ == old(self)@,
            },
    {
        match self.get_timestamp() {
            Some(timestamp) => Some(self.build_market_data_request_at(symbol, timestamp.as_str())),
            None => None,
        }
    }

    /// The Heartbeat at time `timestamp`, sent when the counterparty has
    /// been silent. Advances the sequence number.
    pub fn build_heartbeat_at(&mut self, timestamp: &str) -> (msg: String)
        requires
            old(self)@.msg_seq_num < u32::MAX,
        ensures
            msg@ == heartbeat_message(old(self)@, timestamp@),
            final(self)@ == advanced(old(self)@),
            has_standard_ids(final(self)@),
    {
        proof {
            use_type_invariant(&*self);
        }
        let seq_text = decimal_string(self.msg_seq_num as u64);
        let mut m = String::new();
        let ghost e0 = Seq::<FieldEntry>::empty();
        push_field(&mut m, 8, "FIX.4.4", Ghost(e0));
        let ghost e1 = e0.push((8nat, "FIX.4.4"@));
        push_field(&mut m, 35, "0", Ghost(e1));
        let ghost e2 = e1.push((35nat, "0"@));
        push_field(&mut m, 49, self.sender_comp_id.as_str(), Ghost(e2));
        let ghost e3 = e2.push((49nat, self.sender_comp_id@));
        push_field(&mut m, 56, self.target_comp_id.as_str(), Ghost(e3));
        let ghost e4 = e3.push((56nat, self.target_comp_id@));
        push_field(&mut m, 34, seq_text.as_str(), Ghost(e4));
        let ghost e5 = e4.push((34nat, seq_text@));
        push_field(&mut m, 52, timestamp, Ghost(e5));
        let ghost e6 = e5.push((52nat, timestamp@));
        proof {
            reveal_strlit("FIX.4.4");
            reveal_strlit("0");
            assert(e6 =~~= seq![
                (8nat, fix_version()),
                (35nat, seq!['0']),
                (49nat, self@.sender_comp_id),
                (56nat, self@.target_comp_id),
                (34nat, decimal(self@.msg_seq_num)),
                (52nat, timestamp@),
            ]);
        }
        let checksum = checksum_of(m.as_str());
        append_field(&mut m, 10, checksum.as_str());
        self.msg_seq_num = self.msg_seq_num + 1;
        m
    }

    /// The Logout at time `timestamp`, with a fixed checksum field `000`.
    /// The sequence number is not advanced.
    pub fn build_logout_at(&self, timestamp: &str) -> (msg: String)
        ensures
            msg@ == logout_message(self@, timestamp@),
    {
        let seq_text = decimal_string(self.msg_seq_num as u64);
        let mut m = String::new();
        let ghost e0 = Seq::<FieldEntry>::empty();
        push_field(&mut m, 8, "FIX.4.4", Ghost(e0));
        let ghost e1 = e0.push((8nat, "FIX.4.4"@));
        push_field(&mut m, 35, "5", Ghost(e1));
        let ghost e2 = e1.push((35nat, "5"@));
        push_field(&mut m, 34, seq_text.as_str(), Ghost(e2));
        let ghost e3 = e2.push((34nat, seq_text@));
        push_field(&mut m, 52, timestamp, Ghost(e3));
        let ghost e4 = e3.push((52nat, timestamp@));
        push_field(&mut m, 10, "000", Ghost(e4));
        let ghost e5 = e4.push((10nat, "000"@));
        proof {
            reveal_strlit("FIX.4.4");
            reveal_strlit("5");
            reveal_strlit("000");
            assert(e5 =~~= seq![
                (8nat, fix_version()),
                (35nat, seq!['5']),
                (34nat, decimal(self@.msg_seq_num)),
                (52nat, timestamp@),
                (10nat, seq!['0', '0', '0']),
            ]);
        }
        m
    }

    /// The Heartbeat at the current time, advancing the sequence number;
    /// `None`, with the session unchanged, when the clock cannot be read.
    pub fn build_heartbeat(&mut self) -> (msg: Option<String>)
        requires
            old(self)@.msg_seq_num < u32::MAX,
        ensures
            match msg {
                Some(m) => (exists|ts: Seq<char>| #[trigger]
                    is_timestamp_text(ts) && m@ == heartbeat_message(old(self)@, ts))
                    && final(self)@ == advanced(old(self)@),
                None => final(self)@ == old(self)@,
            },
    {
        match self.get_timestamp() {
            Some(timestamp) => Some(self.build_heartbeat_at(timestamp.as_str())),
            None => None,
        }
    }

    /// The Logout at the current time, or `None` when the clock cannot be
    /// read. The sequence number is not advanced.
    pub fn build_logout(&self) -> (msg: Option<String>)
        ensures
            msg matches Some(m) ==> exists|ts: Seq<char>| #[trigger]
                is_timestamp_text(ts) && m@ == logout_message(self@, ts),
    {
        match self.get_timestamp() {
            Some(timestamp) => Some(self.build_logout_at(timestamp.as_str())),
            None => None,
        }
    }
}

} // verus!
