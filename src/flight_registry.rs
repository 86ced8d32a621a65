//! Registry of flights per tenant: `(tenant, flight) → fields`.
//! A flight's fields are frozen on first registration.
use vstd::prelude::*;

verus! {

/// One column of a flight's schema.
#[derive(Debug, Clone)]
pub struct Fields {
    pub column_name: String,
    pub data_type: String,
}

pub struct RegisterFlight {
    pub team_id: String,
    pub flight: String,
    pub fields: Vec<Fields>,
}

pub struct CheckFlight {
    pub team_id: String,
    pub flight: String,
}

pub struct ListFlights {
    pub team_id: String,
}

/// The flights of one tenant, as listed to an admin.
#[derive(Debug, Clone)]
pub struct FlightsList {
    pub flights: Vec<String>,
}

#[derive(Debug, Clone, Copy, PartialEq, Eq, Structural)]
pub enum RegistryError {
    /// The tenant has no flight registered.
    NotFound,
    /// The flight is registered with other fields.
    Conflict,
}

struct FlightRecord {
    tenant: String,
    flight: String,
    fields: Vec<Fields>,
}

/// A field as (column name, data type).
pub type FieldView = (Seq<char>, Seq<char>);

/// Registry contents: (tenant, flight) to fields.
pub type RegistryView = Map<(Seq<char>, Seq<char>), Seq<FieldView>>;

pub open spec fn fields_view(fields: Seq<Fields>) -> Seq<FieldView> {
    fields.map_values(|f: Fields| (f.column_name@, f.data_type@))
}

spec fn record_key(r: FlightRecord) -> (Seq<char>, Seq<char>) {
    (r.tenant@, r.flight@)
}

spec fn records_view(s: Seq<FlightRecord>) -> RegistryView
    decreases s.len(),
{
    if s.len() == 0 {
        Map::empty()
    } else {
        records_view(s.drop_last()).insert(record_key(s.last()), fields_view(s.last().fields@))
    }
}

spec fn keys_unique(s: Seq<FlightRecord>) -> bool {
    forall|i: int, j: int|
        0 <= i < j < s.len() ==> record_key(#[trigger] s[i]) != record_key(#[trigger] s[j])
}

/// Whether `tenant` has at least one flight in `v`.
pub open spec fn tenant_known(v: RegistryView, tenant: Seq<char>) -> bool {
    exists|f: Seq<char>| #[trigger] v.contains_key((tenant, f))
}

/// Result and new contents of registering `fields` for `(tenant, flight)`.
pub open spec fn register_spec(
    v: RegistryView,
    tenant: Seq<char>,
    flight: Seq<char>,
    fields: Seq<FieldView>,
) -> (Result<(), RegistryError>, RegistryView) {
    if !v.contains_key((tenant, flight)) {
        (Ok(()), v.insert((tenant, flight), fields))
    } else if v[(tenant, flight)] == fields {
        (Ok(()), v)
    } else {
        (Err(RegistryError::Conflict), v)
    }
}

proof fn lemma_records_view(s: Seq<FlightRecord>)
    requires
        keys_unique(s),
    ensures
        forall|i: int| 0 <= i < s.len() ==> #[trigger] records_view(s).contains_key(
            record_key(s[i]),
        ) && records_view(s)[record_key(s[i])] == fields_view(s[i].fields@),
        forall|k: (Seq<char>, Seq<char>)| #[trigger]
            records_view(s).contains_key(k) ==> exists|i: int|
                0 <= i < s.len() && record_key(s[i]) == k,
    decreases s.len(),
{
    if s.len() > 0 {
        let p = s.drop_last();
        assert(keys_unique(p)) by {
            assert forall|i: int, j: int| 0 <= i < j < p.len() implies record_key(
                #[trigger] p[i],
            ) != record_key(#[trigger] p[j]) by {
                assert(p[i] == s[i] && p[j] == s[j]);
            }
        }
        lemma_records_view(p);
        assert forall|i: int| 0 <= i < s.len() implies #[trigger] records_view(s).contains_key(
            record_key(s[i]),
        ) && records_view(s)[record_key(s[i])] == fields_view(s[i].fields@) by {
            if i < s.len() - 1 {
                assert(p[i] == s[i]);
                assert(records_view(p).contains_key(record_key(p[i])));
                assert(record_key(s[i]) != record_key(s[s.len() - 1]));
            } else {
                assert(s.last() == s[i]);
            }
        }
        assert forall|k: (Seq<char>, Seq<char>)| #[trigger]
            records_view(s).contains_key(k) implies exists|i: int|
                0 <= i < s.len() && record_key(s[i]) == k by {
            if k != record_key(s.last()) {
                assert(records_view(p).contains_key(k));
                let i = choose|i: int| 0 <= i < p.len() && record_key(p[i]) == k;
                assert(p[i] == s[i]);
            } else {
                assert(record_key(s[s.len() - 1]) == k);
            }
        }
    }
}

/// Whether two field lists are equal column by column.
pub fn same_fields(a: &Vec<Fields>, b: &Vec<Fields>) -> (r: bool)
    ensures
        r == (fields_view(a@) == fields_view(b@)),
{
    if a.len() != b.len() {
        assert(fields_view(a@).len() != fields_view(b@).len());
        return false;
    }
    let mut i: usize = 0;
    while i < a.len()
        invariant
            a@.len() == b@.len(),
            0 <= i <= a@.len(),
            forall|j: int| 0 <= j < i ==> fields_view(a@)[j] == fields_view(b@)[j],
        decreases a@.len() - i,
    {
        if a[i].column_name != b[i].column_name || a[i].data_type != b[i].data_type {
            assert(fields_view(a@)[i as int] != fields_view(b@)[i as int]);
            return false;
        }
        i = i + 1;
    }
    assert(fields_view(a@) =~= fields_view(b@));
    true
}

/// Tracks which flights each tenant has and their fields.
pub struct FlightRegistry {
    flights: Vec<FlightRecord>,
}

impl FlightRegistry {
    pub closed spec fn wf(&self) -> bool {
        keys_unique(self.flights@)
    }

    /// The registry contents.
    pub closed spec fn view(&self) -> RegistryView {
        records_view(self.flights@)
    }

    pub fn new() -> (r: Self)
        ensures
            r.wf(),
            r.view() == RegistryView::empty(),
    {
        FlightRegistry { flights: Vec::new() }
    }

    /// Index of the record of `(tenant, flight)`, if any.
    fn find(&self, tenant: &String, flight: &String) -> (r: Option<usize>)
        requires
            self.wf(),
        ensures
            r matches Some(i) ==> i < self.flights@.len() && record_key(self.flights@[i as int])
                == (tenant@, flight@),
            r is None ==> !self.view().contains_key((tenant@, flight@)),
    {
        proof {
            lemma_records_view(self.flights@);
        }
        let mut i: usize = 0;
        while i < self.flights.len()
            invariant
                0 <= i <= self.flights@.len(),
                forall|j: int| 0 <= j < i ==> record_key(self.flights@[j]) != (tenant@, flight@),
            decreases self.flights@.len() - i,
        {
            if self.flights[i].tenant == *tenant && self.flights[i].flight == *flight {
                return Some(i);
            }
            i = i + 1;
        }
        None
    }

    /// Registers a flight's fields. Registering the same fields again changes
    /// nothing; registering other fields for a known flight is a conflict and
    /// changes nothing.
    pub fn register_flight(&mut self, msg: RegisterFlight) -> (r: Result<(), RegistryError>)
        requires
            old(self).wf(),
        ensures
            final(self).wf(),
            (r, final(self).view()) == register_spec(
                old(self).view(),
                msg.team_id@,
                msg.flight@,
                fields_view(msg.fields@),
            ),
    {
        proof {
            lemma_records_view(self.flights@);
        }
        match self.find(&msg.team_id, &msg.flight) {
            Some(i) => {
                if same_fields(&self.flights[i].fields, &msg.fields) {
                    Ok(())
                } else {
                    Err(RegistryError::Conflict)
                }
            },
            None => {
                let ghost pre = self.flights@;
                let rec = FlightRecord { tenant: msg.team_id, flight: msg.flight, fields: msg.fields };
                self.flights.push(rec);
                proof {
                    assert(self.flights@.drop_last() =~= pre);
                    assert forall|i: int, j: int| 0 <= i < j < self.flights@.len() implies record_key(
                        #[trigger] self.flights@[i],
                    ) != record_key(#[trigger] self.flights@[j]) by {
                        if j == self.flights@.len() - 1 {
                            assert(self.flights@[i] == pre[i]);
                            assert(records_view(pre).contains_key(record_key(pre[i])));
                        } else {
                            assert(self.flights@[i] == pre[i] && self.flights@[j] == pre[j]);
                        }
                    }
                }
                Ok(())
            },
        }
    }

    /// Whether the tenant has the flight; `NotFound` for an unknown tenant.
    pub fn check_flight(&self, msg: &CheckFlight) -> (r: Result<bool, RegistryError>)
        requires
            self.wf(),
        ensures
            !tenant_known(self.view(), msg.team_id@) ==> r == Err::<bool, RegistryError>(
                RegistryError::NotFound,
            ),
            tenant_known(self.view(), msg.team_id@) ==> r == Ok::<bool, RegistryError>(
                self.view().contains_key((msg.team_id@, msg.flight@)),
            ),
    {
        proof {
            lemma_records_view(self.flights@);
        }
        let mut known = false;
        let mut i: usize = 0;
        while i < self.flights.len()
            invariant
                0 <= i <= self.flights@.len(),
                known ==> tenant_known(self.view(), msg.team_id@),
                !known ==> forall|j: int| 0 <= j < i ==> self.flights@[j].tenant@ != msg.team_id@,
                forall|j: int| 0 <= j < i ==> record_key(self.flights@[j]) != (
                    msg.team_id@,
                    msg.flight@,
                ),
                keys_unique(self.flights@),
                forall|k: int| 0 <= k < self.flights@.len() ==> #[trigger] records_view(
                    self.flights@,
                ).contains_key(record_key(self.flights@[k])),
            decreases self.flights@.len() - i,
        {
            if self.flights[i].tenant == msg.team_id {
                if self.flights[i].flight == msg.flight {
                    assert(self.view().contains_key(record_key(self.flights@[i as int])));
                    return Ok(true);
                }
                assert(self.view().contains_key(record_key(self.flights@[i as int])));
                known = true;
            }
            i = i + 1;
        }
        if known {
            Ok(false)
        } else {
            proof {
                assert forall|f: Seq<char>| !#[trigger] self.view().contains_key(
                    (msg.team_id@, f),
                ) by {
                    if self.view().contains_key((msg.team_id@, f)) {
                        let j = choose|j: int|
                            0 <= j < self.flights@.len() && record_key(self.flights@[j]) == (
                                msg.team_id@,
                                f,
                            );
                    }
                }
            }
            Err(RegistryError::NotFound)
        }
    }

    /// The tenant's flights, each once; `NotFound` for an unknown tenant.
    #[verifier::rlimit(60)]
    pub fn list_flights(&self, msg: &ListFlights) -> (r: Result<Vec<String>, RegistryError>)
        requires
            self.wf(),
        ensures
            !tenant_known(self.view(), msg.team_id@) ==> r is Err && r->Err_0
                == RegistryError::NotFound,
            tenant_known(self.view(), msg.team_id@) ==> r is Ok,
            r is Ok ==> forall|f: Seq<char>|
                #[trigger] self.view().contains_key((msg.team_id@, f)) <==> exists|i: int|
                    0 <= i < r->Ok_0@.len() && (#[trigger] r->Ok_0@[i])@ == f,
            r matches Ok(names) ==> forall|i: int, j: int|
                0 <= i < j < names@.len() ==> (#[trigger] names@[i])@ != (#[trigger] names@[j])@,
    {
        proof {
            lemma_records_view(self.flights@);
        }
        let mut names: Vec<String> = Vec::new();
        let mut i: usize = 0;
        while i < self.flights.len()
            invariant
                0 <= i <= self.flights@.len(),
                keys_unique(self.flights@),
                forall|k: int| 0 <= k < self.flights@.len() ==> #[trigger] records_view(
                    self.flights@,
                ).contains_key(record_key(self.flights@[k])),
                forall|n: int| 0 <= n < names@.len() ==> exists|j: int|
                    0 <= j < i && record_key(self.flights@[j]) == (
                        msg.team_id@,
                        (#[trigger] names@[n])@,
                    ),
                forall|j: int|
                    0 <= j < i && self.flights@[j].tenant@ == msg.team_id@ ==> exists|n: int|
                        0 <= n < names@.len() && (#[trigger] names@[n])@ == self.flights@[j].flight@,
                forall|a: int, b: int|
                    0 <= a < b < names@.len() ==> (#[trigger] names@[a])@ != (#[trigger] names@[b])@,
            decreases self.flights@.len() - i,
        {
            if self.flights[i].tenant == msg.team_id {
                let name = self.flights[i].flight.clone();
                proof {
                    assert forall|n: int| 0 <= n < names@.len() implies (#[trigger] names@[n])@
                        != name@ by {
                        let j = choose|j: int|
                            0 <= j < i && record_key(self.flights@[j]) == (
                                msg.team_id@,
                                names@[n]@,
                            );
                        assert(record_key(self.flights@[j]) != record_key(self.flights@[i as int]));
                    }
                }
                let ghost before = names@;
                names.push(name);
                proof {
                    assert(names@[names@.len() - 1] == name);
                    assert forall|n: int| 0 <= n < names@.len() implies exists|j: int|
                        0 <= j < i + 1 && record_key(self.flights@[j]) == (
                            msg.team_id@,
                            (#[trigger] names@[n])@,
                        ) by {
                        if n < before.len() {
                            assert(names@[n] == before[n]);
                        } else {
                            assert(record_key(self.flights@[i as int]) == (msg.team_id@, names@[n]@));
                        }
                    }
                    assert forall|j: int|
                        0 <= j < i + 1 && self.flights@[j].tenant@ == msg.team_id@ implies exists|n: int|
                        0 <= n < names@.len() && (#[trigger] names@[n])@ == self.flights@[j].flight@ by {
                        if j < i {
                            let n = choose|n: int|
                                0 <= n < before.len() && (#[trigger] before[n])@ == self.flights@[j].flight@;
                            assert(names@[n] == before[n]);
                        } else {
                            assert(names@[names@.len() - 1]@ == self.flights@[j].flight@);
                        }
                    }
                }
            }
            i = i + 1;
        }
        if names.len() == 0 {
            proof {
                assert forall|f: Seq<char>| !#[trigger] self.view().contains_key(
                    (msg.team_id@, f),
                ) by {
                    if self.view().contains_key((msg.team_id@, f)) {
                        let j = choose|j: int|
                            0 <= j < self.flights@.len() && record_key(self.flights@[j]) == (
                                msg.team_id@,
                                f,
                            );
                    }
                }
            }
            return Err(RegistryError::NotFound);
        }
        proof {
            assert forall|f: Seq<char>|
                #[trigger] self.view().contains_key((msg.team_id@, f)) <==> exists|n: int|
                    0 <= n < names@.len() && (#[trigger] names@[n])@ == f by {
                if self.view().contains_key((msg.team_id@, f)) {
                    let j = choose|j: int|
                        0 <= j < self.flights@.len() && record_key(self.flights@[j]) == (
                            msg.team_id@,
                            f,
                        );
                    assert(self.flights@[j].tenant@ == msg.team_id@);
                    assert(exists|n: int|
                        0 <= n < names@.len() && (#[trigger] names@[n])@ == self.flights@[j].flight@);
                }
                if exists|n: int| 0 <= n < names@.len() && (#[trigger] names@[n])@ == f {
                    let n = choose|n: int| 0 <= n < names@.len() && (#[trigger] names@[n])@ == f;
                    let j = choose|j: int|
                        0 <= j < i && record_key(self.flights@[j]) == (
                            msg.team_id@,
                            (#[trigger] names@[n])@,
                        );
                    assert(self.view().contains_key(record_key(self.flights@[j])));
                }
            }
            let f0 = names@[0]@;
            assert(self.view().contains_key((msg.team_id@, f0)));
        }
        let res: Result<Vec<String>, RegistryError> = Ok(names);
        assert(res->Ok_0@ == names@);
        assert(forall|f: Seq<char>|
            #[trigger] self.view().contains_key((msg.team_id@, f)) <==> exists|i: int|
                0 <= i < res->Ok_0@.len() && (#[trigger] res->Ok_0@[i])@ == f);
        res
    }
}

/// The tenant's flights for the admin listing; `NotFound` for an unknown tenant.
pub fn fetch_flights(registry: &FlightRegistry, team_id: &String) -> (r: Result<
    FlightsList,
    RegistryError,
>)
    requires
        registry.wf(),
    ensures
        r is Err <==> !tenant_known(registry.view(), team_id@),
        r matches Err(e) ==> e == RegistryError::NotFound,
        r is Ok ==> forall|f: Seq<char>|
            #[trigger] registry.view().contains_key((team_id@, f)) <==> exists|i: int|
                0 <= i < r->Ok_0.flights@.len() && (#[trigger] r->Ok_0.flights@[i])@ == f,
        r is Ok ==> forall|i: int, j: int|
            0 <= i < j < r->Ok_0.flights@.len() ==> (#[trigger] r->Ok_0.flights@[i])@ != (
            #[trigger] r->Ok_0.flights@[j])@,
{
    match registry.list_flights(&ListFlights { team_id: team_id.clone() }) {
        Ok(flights) => {
            let ghost names = flights@;
            assert(forall|f: Seq<char>|
                #[trigger] registry.view().contains_key((team_id@, f)) <==> exists|i: int|
                    0 <= i < names.len() && (#[trigger] names[i])@ == f);
            let res: Result<FlightsList, RegistryError> = Ok(FlightsList { flights });
            assert(res->Ok_0.flights@ == names);
            res
        },
        Err(e) => Err(e),
    }
}

/// Registering the same fields for a flight twice leaves the registry as one
/// registration does; registering other fields afterwards is a conflict and
/// leaves it unchanged.
pub proof fn lemma_register_idempotent(
    v: RegistryView,
    tenant: Seq<char>,
    flight: Seq<char>,
    fields: Seq<FieldView>,
    other: Seq<FieldView>,
)
    requires
        other != fields,
    ensures
        register_spec(v, tenant, flight, fields).0 is Ok ==> ({
            let once = register_spec(v, tenant, flight, fields).1;
            register_spec(once, tenant, flight, fields) == (Ok::<(), RegistryError>(()), once)
        }),
        v.contains_key((tenant, flight)) && v[(tenant, flight)] == fields ==> register_spec(
            v,
            tenant,
            flight,
            fields,
        ) == (Ok::<(), RegistryError>(()), v),
        v.contains_key((tenant, flight)) && v[(tenant, flight)] == fields ==> register_spec(
            v,
            tenant,
            flight,
            other,
        ) == (Err::<(), RegistryError>(RegistryError::Conflict), v),
{
    let once = register_spec(v, tenant, flight, fields).1;
    if register_spec(v, tenant, flight, fields).0 is Ok {
        assert(once.contains_key((tenant, flight)));
        assert(once[(tenant, flight)] == fields);
    }
}

} // verus!
