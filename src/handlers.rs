use vstd::prelude::*;
use crate::broadcast::{Broadcaster, after_publish};
use crate::date::{CalendarDate, DateError, parse_custom_time, date_text_ok, date_of, date_error_of};
use crate::model::{WeatherData, CreateWeatherData, accepted, humidity_in_range};
use crate::service::{WeatherService, WeatherServiceError, lists_window, lemma_single_day_window, lemma_overwrite};

verus! {

/// Why a request was refused.
#[derive(Clone, Copy, Debug, PartialEq, Eq, Structural)]
pub enum RequestError {
    /// No record for the day asked for.
    NotFound,
    /// A date text could not be read.
    MalformedData(DateError),
    /// The submission breaks a domain constraint (humidity outside 0 to 100).
    InvalidData,
    /// The store failed.
    InternalService(WeatherServiceError),
}

impl RequestError {
    /// The HTTP status that reports this error.
    pub fn status_code(&self) -> (r: u16)
        ensures
            r == match *self {
                RequestError::NotFound => 404u16,
                RequestError::MalformedData(_) => 400u16,
                RequestError::InvalidData => 400u16,
                RequestError::InternalService(_) => 500u16,
            },
    {
        match self {
            RequestError::NotFound => 404,
            RequestError::MalformedData(_) => 400,
            RequestError::InvalidData => 400,
            RequestError::InternalService(_) => 500,
        }
    }
}

/// Query of a single-day lookup.
pub struct DayParams {
    pub day: String,
}

/// Query of a range lookup.
pub struct RangeParams {
    pub start: String,
    pub end: String,
}

/// The record of the day named by `params.day`.
pub fn date_single(params: DayParams, service: &WeatherService) -> (r: Result<
    WeatherData,
    RequestError,
>)
    requires
        service.wf(),
    ensures
        !date_text_ok(params.day@) ==> r == Err::<WeatherData, RequestError>(
            RequestError::MalformedData(date_error_of(params.day@)),
        ),
        date_text_ok(params.day@) && service@.contains_key(date_of(params.day@)) ==> r == Ok::<
            WeatherData,
            RequestError,
        >(service@[date_of(params.day@)]),
        date_text_ok(params.day@) && !service@.contains_key(date_of(params.day@)) ==> r == Err::<
            WeatherData,
            RequestError,
        >(RequestError::NotFound),
{
    let start = match parse_custom_time(params.day) {
        Ok(d) => d,
        Err(e) => {
            return Err(RequestError::MalformedData(e));
        },
    };
    let mut rows = service.fetch_range(start, start);
    proof {
        lemma_single_day_window(service@, start, rows@);
    }
    match rows.pop() {
        Some(day) => Ok(day),
        None => Err(RequestError::NotFound),
    }
}

/// The records from `params.start` to `params.end`, both included, ascending by day;
/// an empty list where none lies there.
pub fn date_range(params: RangeParams, service: &WeatherService) -> (r: Result<
    Vec<WeatherData>,
    RequestError,
>)
    requires
        service.wf(),
    ensures
        !date_text_ok(params.start@) ==> r == Err::<Vec<WeatherData>, RequestError>(
            RequestError::MalformedData(date_error_of(params.start@)),
        ),
        date_text_ok(params.start@) && !date_text_ok(params.end@) ==> r == Err::<
            Vec<WeatherData>,
            RequestError,
        >(RequestError::MalformedData(date_error_of(params.end@))),
        date_text_ok(params.start@) && date_text_ok(params.end@) ==> (r matches Ok(rows)
            && lists_window(service@, date_of(params.start@), date_of(params.end@), rows@)),
{
    let start = match parse_custom_time(params.start) {
        Ok(d) => d,
        Err(e) => {
            return Err(RequestError::MalformedData(e));
        },
    };
    let end = match parse_custom_time(params.end) {
        Ok(d) => d,
        Err(e) => {
            return Err(RequestError::MalformedData(e));
        },
    };
    Ok(service.fetch_range(start, end))
}

/// The outcome of checking a submission: the humidity first, then the date.
pub open spec fn acceptance(data: CreateWeatherData) -> Result<WeatherData, RequestError> {
    if !humidity_in_range(data.humidity) {
        Err(RequestError::InvalidData)
    } else if !date_text_ok(data.date@) {
        Err(RequestError::MalformedData(date_error_of(data.date@)))
    } else {
        Ok(accepted(data))
    }
}

/// Checks a submission and turns it into the measurement to publish and store.
pub fn accept_submission(data: CreateWeatherData) -> (r: Result<WeatherData, RequestError>)
    ensures
        r == acceptance(data),
{
    if !data.is_valid() {
        return Err(RequestError::InvalidData);
    }
    match WeatherData::try_from(data) {
        Ok(d) => Ok(d),
        Err(e) => Err(RequestError::MalformedData(e)),
    }
}

/// Completes a submission whose measurement a durable store was asked to keep:
/// on success the record of its day is replaced; on failure nothing is kept and the
/// failure is reported.
pub fn record_persisted(
    service: &mut WeatherService,
    measurement: WeatherData,
    persisted: Result<(), WeatherServiceError>,
) -> (r: Result<(), RequestError>)
    requires
        old(service).wf(),
    ensures
        final(service).wf(),
        persisted is Ok ==> r == Ok::<(), RequestError>(()) && final(service)@ == old(
            service,
        )@.insert(measurement.time, measurement),
        persisted matches Err(e) ==> r == Err::<(), RequestError>(RequestError::InternalService(e))
            && final(service)@ == old(service)@,
{
    match persisted {
        Ok(()) => {
            service.create_measurement(measurement);
            Ok(())
        },
        Err(e) => Err(RequestError::InternalService(e)),
    }
}

/// A submission that was accepted is what a single-day lookup of its date then
/// returns, with the submitted readings.
pub proof fn lemma_submit_then_lookup(v: Map<CalendarDate, WeatherData>, data: CreateWeatherData)
    requires
        acceptance(data) is Ok,
    ensures
        acceptance(data) == Ok::<WeatherData, RequestError>(accepted(data)),
        v.insert(accepted(data).time, accepted(data)).contains_key(date_of(data.date@)),
        v.insert(accepted(data).time, accepted(data))[date_of(data.date@)] == accepted(data),
        accepted(data).humidity == data.humidity,
        accepted(data).temperature == data.temperature,
{
}

/// Two accepted submissions for one date leave one record for it, holding the
/// second one's readings, and a window on that date lists it alone.
pub proof fn lemma_resubmit_same_day(
    v: Map<CalendarDate, WeatherData>,
    first: CreateWeatherData,
    second: CreateWeatherData,
    r: Seq<WeatherData>,
)
    requires
        acceptance(first) is Ok,
        acceptance(second) is Ok,
        date_of(first.date@) == date_of(second.date@),
        lists_window(
            v.insert(accepted(first).time, accepted(first)).insert(
                accepted(second).time,
                accepted(second),
            ),
            date_of(second.date@),
            date_of(second.date@),
            r,
        ),
    ensures
        v.insert(accepted(first).time, accepted(first)).insert(
            accepted(second).time,
            accepted(second),
        ) == v.insert(accepted(second).time, accepted(second)),
        r == seq![accepted(second)],
{
    lemma_overwrite(v, accepted(first), accepted(second), r);
}

/// Accepts a submission: the humidity is checked first, then the date is read; an
/// accepted measurement is published to the listeners and then stored, replacing
/// the record of its day. A refused submission changes nothing.
pub fn submit_data(
    service: &mut WeatherService,
    updates: &mut Broadcaster,
    data: CreateWeatherData,
) -> (r: Result<(), RequestError>)
    requires
        old(service).wf(),
        old(updates).wf(),
    ensures
        final(service).wf(),
        final(updates).wf(),
        final(updates).cap() == old(updates).cap(),
        acceptance(data) matches Err(e) ==> {
            &&& r == Err::<(), RequestError>(e)
            &&& final(service)@ == old(service)@
            &&& final(updates)@ == old(updates)@
        },
        acceptance(data) matches Ok(m) ==> {
            &&& r == Ok::<(), RequestError>(())
            &&& final(service)@ == old(service)@.insert(m.time, m)
            &&& final(updates)@ == after_publish(old(updates)@, m, old(updates).cap())
        },
{
    let m = match accept_submission(data) {
        Ok(m) => m,
        Err(e) => {
            return Err(e);
        },
    };
    updates.publish(m);
    service.create_measurement(m);
    Ok(())
}

} // verus!
