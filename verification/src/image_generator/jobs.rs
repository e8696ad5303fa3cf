//! Following up jobs that a provider runs in its own time.
use vstd::prelude::*;

use super::provider_adapter::aihorde::job_link;
use crate::text::{
    byte_len, byte_len_str, contains, contains_str, is_blank, is_link, is_link_text, lines,
    lines_of, lower_ascii, lower_ascii_str, opt_present, opt_str_view, opt_view, present,
    present_str, same, starts_with, starts_with_str, strip_prefix, strip_prefix_str, trim,
    trim_end_of, trim_end_of_str, trim_of, trim_of_str, trim_str, views,
};
use super::provider_adapter::{
    b64_data, image_at, image_of_data, image_views, image_views_push, images_view,
    normalize_provider_id, provider_name, url_data, ImageDataModel, ImageResponseData,
};
use crate::json::{group_json_views, json_parse, json_views, parse, parsed_view, Json, JsonModel};

verus! {

// ---------------------------------------------------------------------------
// Links to jobs
// ---------------------------------------------------------------------------

/// Whether requests to a provider become AI Horde jobs.
pub fn is_ai_horde_provider(provider_id: &str) -> (r: bool)
    ensures
        r == (provider_id@ == "aihorde"@ || provider_id@ == "ai-horde"@),
{
    same(provider_id, "aihorde") || same(provider_id, "ai-horde")
}

pub fn is_gradio_provider(provider_id: &str) -> (r: bool)
    ensures
        r == (provider_name(provider_id@) == "gradio"@),
{
    same(normalize_provider_id(provider_id).as_str(), "gradio")
}

/// The number behind a prefix, unless it is blank.
pub open spec fn number_behind(value: Seq<char>, prefix: Seq<char>) -> Option<Seq<char>> {
    opt_present(strip_prefix(value, prefix))
}

fn number_after(value: &str, prefix: &str) -> (r: Option<String>)
    ensures
        opt_view(r) == number_behind(value@, prefix@),
{
    match strip_prefix_str(value, prefix) {
        Some(rest) => match present_str(rest) {
            Some(id) => Some(id.to_string()),
            None => None,
        },
        None => None,
    }
}

/// The number of the AI Horde job that a link stands for.
pub fn extract_ai_horde_job_id(value: &str) -> (r: Option<String>)
    ensures
        opt_view(r) == number_behind(value@, "aihorde://"@),
{
    number_after(value, "aihorde://")
}

/// The number of the Gradio event that a link stands for.
pub fn extract_gradio_event_id(value: &str) -> (r: Option<String>)
    ensures
        opt_view(r) == number_behind(value@, "gradio://"@),
{
    number_after(value, "gradio://")
}

/// The link to a job leads back to the number of the job.
pub proof fn law_job_link_leads_back(id: Seq<char>)
    ensures
        number_behind(job_link(id), "aihorde://"@) == present(id),
        number_behind("gradio://"@ + id, "gradio://"@) == present(id),
{
    assert(job_link(id).take("aihorde://"@.len() as int) =~= "aihorde://"@);
    assert(job_link(id).skip("aihorde://"@.len() as int) =~= id);
    let link = "gradio://"@ + id;
    assert(link.take("gradio://"@.len() as int) =~= "gradio://"@);
    assert(link.skip("gradio://"@.len() as int) =~= id);
}

// ---------------------------------------------------------------------------
// AI Horde
// ---------------------------------------------------------------------------

/// How often a job is checked before it is given up, and how many seconds lie between.
pub const HORDE_MAX_POLLS: u32 = 300;

pub const HORDE_POLL_SECONDS: u64 = 2;

pub fn horde_check_url(base_url: &str, job_id: &str) -> (r: String)
    ensures
        r@ == trim_end_of(base_url@, '/') + "/v2/generate/check/"@ + job_id@,
{
    let mut url = trim_end_of_str(base_url, '/').to_string();
    url.append("/v2/generate/check/");
    url.append(job_id);
    url
}

pub fn horde_status_url(base_url: &str, job_id: &str) -> (r: String)
    ensures
        r@ == trim_end_of(base_url@, '/') + "/v2/generate/status/"@ + job_id@,
{
    let mut url = trim_end_of_str(base_url, '/').to_string();
    url.append("/v2/generate/status/");
    url.append(job_id);
    url
}

/// What a check says of a job.
#[derive(Debug)]
pub struct HordeCheck {
    pub done: bool,
    pub faulted: bool,
    pub message: Option<String>,
}

/// Where a job stands: it is checked for the given time, its images can be fetched, or it failed.
#[derive(Debug)]
pub enum HordeJob {
    Checking(u32),
    Completed,
    Failed(String),
}

pub enum HordeJobModel {
    Checking(u32),
    Completed,
    Failed(Seq<char>),
}

impl View for HordeJob {
    type V = HordeJobModel;

    open spec fn view(&self) -> HordeJobModel {
        match self {
            HordeJob::Checking(n) => HordeJobModel::Checking(*n),
            HordeJob::Completed => HordeJobModel::Completed,
            HordeJob::Failed(e) => HordeJobModel::Failed(e@),
        }
    }
}

pub open spec fn fault(message: Option<Seq<char>>) -> Seq<char> {
    match message {
        Some(m) => m,
        None => "AI Horde generation failed."@,
    }
}

/// Where a job stands after the check with the given number.
pub open spec fn after_check(poll: u32, check: HordeCheck) -> HordeJobModel {
    if check.faulted {
        HordeJobModel::Failed(fault(opt_view(check.message)))
    } else if check.done {
        HordeJobModel::Completed
    } else if poll + 1 < HORDE_MAX_POLLS {
        HordeJobModel::Checking((poll + 1) as u32)
    } else {
        HordeJobModel::Failed("AI Horde generation timed out after 10 minutes."@)
    }
}

fn fault_message(message: Option<String>) -> (r: String)
    ensures
        r@ == fault(opt_view(message)),
{
    match message {
        Some(m) => m,
        None => "AI Horde generation failed.".to_string(),
    }
}

/// Decides how to go on after a check. The first check has the number 0.
pub fn advance_horde_job(poll: u32, check: HordeCheck) -> (r: HordeJob)
    requires
        poll < HORDE_MAX_POLLS,
    ensures
        r@ == after_check(poll, check),
{
    if check.faulted {
        HordeJob::Failed(fault_message(check.message))
    } else if check.done {
        HordeJob::Completed
    } else if poll + 1 < HORDE_MAX_POLLS {
        HordeJob::Checking(poll + 1)
    } else {
        HordeJob::Failed("AI Horde generation timed out after 10 minutes.".to_string())
    }
}

/// One image of a completed job.
#[derive(Debug)]
pub struct HordeGeneration {
    pub img: Option<String>,
    pub censored: bool,
}

/// What a completed job comes to.
#[derive(Debug)]
pub struct HordeStatus {
    pub faulted: bool,
    pub message: Option<String>,
    pub generations: Vec<HordeGeneration>,
}

pub open spec fn generation_image(g: HordeGeneration) -> Option<ImageDataModel> {
    match g.img {
        Some(url) => if g.censored || trim(url@).len() == 0 {
            None
        } else {
            Some(url_data(url@))
        },
        None => None,
    }
}

/// The images of a job without those that were censored or are missing.
pub open spec fn generation_images(generations: Seq<HordeGeneration>) -> Seq<ImageDataModel>
    decreases generations.len(),
{
    if generations.len() == 0 {
        Seq::empty()
    } else {
        let before = generation_images(generations.drop_last());
        match generation_image(generations.last()) {
            Some(d) => before.push(d),
            None => before,
        }
    }
}

pub open spec fn job_images(status: HordeStatus) -> Result<Seq<ImageDataModel>, Seq<char>> {
    if status.faulted {
        Err(fault(opt_view(status.message)))
    } else if generation_images(status.generations@).len() == 0 {
        Err("AI Horde completed the generation but returned no images."@)
    } else {
        Ok(generation_images(status.generations@))
    }
}

/// Takes the images out of a completed job.
pub fn collect_horde_images(status: HordeStatus) -> (r: Result<Vec<ImageResponseData>, String>)
    ensures
        images_view(r) == job_images(status),
{
    if status.faulted {
        return Err(fault_message(status.message));
    }
    let ghost all = status.generations@;
    let mut images: Vec<ImageResponseData> = Vec::new();
    assert(image_views(images@) =~= Seq::empty());
    for i in 0..status.generations.len()
        invariant
            all == status.generations@,
            image_views(images@) == generation_images(all.take(i as int)),
    {
        broadcast use image_views_push;

        assert(all.take(i + 1).drop_last() =~= all.take(i as int));
        assert(all.take(i + 1).last() == all[i as int]);
        if !status.generations[i].censored {
            if let Some(url) = &status.generations[i].img {
                if !is_blank(url.as_str()) {
                    images.push(image_at(url.as_str()));
                }
            }
        }
    }
    assert(all.take(all.len() as int) =~= all);
    if images.len() == 0 {
        return Err("AI Horde completed the generation but returned no images.".to_string());
    }
    Ok(images)
}

// ---------------------------------------------------------------------------
// Gradio
// ---------------------------------------------------------------------------

/// How often an event is polled before it is given up, and how many milliseconds lie between.
pub const GRADIO_MAX_POLLS: u32 = 240;

pub const GRADIO_POLL_MILLIS: u64 = 500;

/// The name of the function whose event is polled.
pub open spec fn polled_endpoint(endpoint_name: Seq<char>) -> Seq<char> {
    let name = trim(trim_of(endpoint_name, '/'));
    if name.len() == 0 {
        "predict"@
    } else {
        name
    }
}

pub fn gradio_status_url(base_url: &str, endpoint_name: &str, event_id: &str) -> (r: String)
    ensures
        r@ == trim_end_of(base_url@, '/') + "/gradio_api/call/"@ + polled_endpoint(endpoint_name@)
            + "/"@ + event_id@,
{
    let name = trim_str(trim_of_str(endpoint_name, '/'));
    let mut url = trim_end_of_str(base_url, '/').to_string();
    url.append("/gradio_api/call/");
    url.append(
        if name.is_empty() {
            "predict"
        } else {
            name
        },
    );
    url.append("/");
    url.append(event_id);
    url
}

/// Where older interfaces tell of an event.
pub fn gradio_alternative_url(base_url: &str, event_id: &str) -> (r: String)
    ensures
        r@ == trim_end_of(base_url@, '/') + "/queue/status/"@ + event_id@,
{
    let mut url = trim_end_of_str(base_url, '/').to_string();
    url.append("/queue/status/");
    url.append(event_id);
    url
}

/// The value of the `Authorization` field of a poll, where there is a key.
pub open spec fn poll_authorization(api_key: Seq<char>) -> Option<Seq<char>> {
    match present(api_key) {
        Some(key) => Some("Bearer "@ + key),
        None => None,
    }
}

pub fn gradio_authorization(api_key: &str) -> (r: Option<String>)
    ensures
        opt_view(r) == poll_authorization(api_key@),
{
    match present_str(api_key) {
        Some(key) => {
            let mut value = "Bearer ".to_string();
            value.append(key);
            Some(value)
        },
        None => None,
    }
}

/// Whether the older address is asked too, after the poll with the given number.
pub fn asks_alternative(poll: u32) -> (r: bool)
    ensures
        r == (poll > 0 && poll % 10 == 0),
{
    poll > 0 && poll % 10 == 0
}

/// What a poll says of an event.
#[derive(Debug)]
pub enum GradioPoll {
    Pending,
    Completed(Vec<ImageResponseData>),
    Failed(String),
}

pub enum GradioPollModel {
    Pending,
    Completed(Seq<ImageDataModel>),
    Failed(Seq<char>),
}

impl View for GradioPoll {
    type V = GradioPollModel;

    open spec fn view(&self) -> GradioPollModel {
        match self {
            GradioPoll::Pending => GradioPollModel::Pending,
            GradioPoll::Completed(images) => GradioPollModel::Completed(image_views(images@)),
            GradioPoll::Failed(e) => GradioPollModel::Failed(e@),
        }
    }
}

/// The text by which an item of the data tells of an image: the item itself, or its `url`, or its
/// `data`.
pub open spec fn item_text(item: JsonModel) -> Seq<char> {
    match item {
        JsonModel::Text(s) => trim(s),
        JsonModel::Object(_) => match item.get_str("url"@) {
            Some(s) => s,
            None => match item.get_str("data"@) {
                Some(s) => s,
                None => Seq::empty(),
            },
        },
        _ => Seq::empty(),
    }
}

/// The image of an item of the data: a link, or image data of more than 20 bytes.
pub open spec fn item_image(item: JsonModel) -> Option<ImageDataModel> {
    let s = item_text(item);
    if is_link(s) {
        Some(url_data(s))
    } else if byte_len(s) > 20 {
        Some(b64_data(s))
    } else {
        None
    }
}

pub open spec fn item_images(items: Seq<JsonModel>) -> Seq<ImageDataModel>
    decreases items.len(),
{
    if items.len() == 0 {
        Seq::empty()
    } else {
        let before = item_images(items.drop_last());
        match item_image(items.last()) {
            Some(d) => before.push(d),
            None => before,
        }
    }
}

/// The image that a text stands for, whatever it looks like.
pub open spec fn text_image(s: Seq<char>) -> Option<ImageDataModel> {
    match present(s) {
        Some(t) => Some(
            if starts_with(t, "http"@) {
                url_data(t)
            } else {
                b64_data(t)
            },
        ),
        None => None,
    }
}

/// The images of the texts of a list.
pub open spec fn text_images(items: Seq<JsonModel>) -> Seq<ImageDataModel>
    decreases items.len(),
{
    if items.len() == 0 {
        Seq::empty()
    } else {
        let before = text_images(items.drop_last());
        match items.last() {
            JsonModel::Text(s) => match text_image(s) {
                Some(d) => before.push(d),
                None => before,
            },
            _ => before,
        }
    }
}

pub open spec fn data_images(data: JsonModel) -> Seq<ImageDataModel> {
    match data {
        JsonModel::Array(items) => item_images(items),
        JsonModel::Text(s) => match text_image(s) {
            Some(d) => seq![d],
            None => Seq::empty(),
        },
        _ => Seq::empty(),
    }
}

/// What a reply in JSON says of an event.
pub open spec fn json_poll(reply: JsonModel, body: Seq<char>) -> GradioPollModel {
    let images = match reply.get("data"@) {
        Some(data) => data_images(data),
        None => Seq::empty(),
    };
    if images.len() > 0 {
        GradioPollModel::Completed(images)
    } else {
        match reply.get_str("status"@) {
            Some(s) => {
                let status = lower_ascii(s);
                if contains(status, "failed"@) || contains(status, "error"@) {
                    GradioPollModel::Failed(
                        "Gradio generation failed (status: "@ + status + "): "@ + body,
                    )
                } else {
                    GradioPollModel::Pending
                }
            },
            None => GradioPollModel::Pending,
        }
    }
}

/// The data of a line in a stream of events, unless there is none.
pub open spec fn line_data(line: Seq<char>) -> Option<Seq<char>> {
    match strip_prefix(trim(line), "data:"@) {
        Some(rest) => {
            let data = trim(rest);
            if data.len() == 0 || data == "[DONE]"@ {
                None
            } else {
                Some(data)
            }
        },
        None => None,
    }
}

/// The images of the data of one line, given what it reads as.
pub open spec fn line_images(read: Result<JsonModel, Seq<char>>) -> Seq<ImageDataModel> {
    match read {
        Ok(JsonModel::Array(items)) => text_images(items),
        Ok(JsonModel::Text(s)) => seq![b64_data(s)],
        _ => Seq::empty(),
    }
}

/// The images of the first line of a stream that has any.
pub open spec fn stream_images(stream: Seq<Seq<char>>) -> Seq<ImageDataModel>
    decreases stream.len(),
{
    if stream.len() == 0 {
        Seq::empty()
    } else {
        let here = match line_data(stream[0]) {
            Some(data) => line_images(json_parse(data)),
            None => Seq::empty(),
        };
        if here.len() > 0 {
            here
        } else {
            stream_images(stream.drop_first())
        }
    }
}

/// What a stream of events says of an event.
pub open spec fn stream_poll(body: Seq<char>) -> GradioPollModel {
    if (contains(body, "event: complete"@) || contains(body, "\"data\""@)) && stream_images(
        lines(body),
    ).len() > 0 {
        GradioPollModel::Completed(stream_images(lines(body)))
    } else {
        GradioPollModel::Pending
    }
}

/// What the reply to a poll says, given what its body reads as.
pub open spec fn poll_reply(read: Result<JsonModel, Seq<char>>, body: Seq<char>) -> GradioPollModel {
    match read {
        Ok(reply) => json_poll(reply, body),
        Err(_) => stream_poll(body),
    }
}

fn collect_items(items: &Vec<Json>) -> (r: Vec<ImageResponseData>)
    ensures
        image_views(r@) == item_images(json_views(items@)),
{
    let ghost all = json_views(items@);
    let mut out: Vec<ImageResponseData> = Vec::new();
    assert(image_views(out@) =~= Seq::empty());
    for i in 0..items.len()
        invariant
            all == json_views(items@),
            image_views(out@) == item_images(all.take(i as int)),
    {
        broadcast use {group_json_views, image_views_push};

        assert(all.take(i + 1).drop_last() =~= all.take(i as int));
        assert(all.take(i + 1).last() == items@[i as int]@);
        let s: &str = match &items[i] {
            Json::Text(s) => trim_str(s.as_str()),
            _ => match items[i].get_str("url") {
                Some(s) => s,
                None => match items[i].get_str("data") {
                    Some(s) => s,
                    None => "",
                },
            },
        };
        proof {
            reveal_strlit("");
            assert(""@ =~= Seq::<char>::empty());
            assert(s@ == item_text(items@[i as int]@));
        }
        if is_link_text(s) {
            out.push(image_at(s));
        } else if byte_len_str(s) > 20 {
            out.push(image_of_data(s));
        }
    }
    assert(all.take(all.len() as int) =~= all);
    out
}

fn image_of_text(s: &str) -> (r: Option<ImageResponseData>)
    ensures
        match r {
            Some(d) => text_image(s@) == Some(d@),
            None => text_image(s@) is None,
        },
{
    match present_str(s) {
        Some(t) => if starts_with_str(t, "http") {
            Some(image_at(t))
        } else {
            Some(image_of_data(t))
        },
        None => None,
    }
}

fn collect_texts(items: &Vec<Json>) -> (r: Vec<ImageResponseData>)
    ensures
        image_views(r@) == text_images(json_views(items@)),
{
    let ghost all = json_views(items@);
    let mut out: Vec<ImageResponseData> = Vec::new();
    assert(image_views(out@) =~= Seq::empty());
    for i in 0..items.len()
        invariant
            all == json_views(items@),
            image_views(out@) == text_images(all.take(i as int)),
    {
        broadcast use image_views_push;

        assert(all.take(i + 1).drop_last() =~= all.take(i as int));
        assert(all.take(i + 1).last() == items@[i as int]@);
        if let Some(s) = items[i].as_str() {
            if let Some(d) = image_of_text(s) {
                out.push(d);
            }
        }
    }
    assert(all.take(all.len() as int) =~= all);
    out
}

fn collect_data(data: &Json) -> (r: Vec<ImageResponseData>)
    ensures
        image_views(r@) == data_images(data@),
{
    broadcast use {group_json_views, image_views_push};

    let mut out: Vec<ImageResponseData> = Vec::new();
    assert(image_views(out@) =~= Seq::empty());
    match data {
        Json::Array(items) => collect_items(items),
        Json::Text(s) => {
            if let Some(d) = image_of_text(s.as_str()) {
                out.push(d);
                assert(image_views(out@) =~= seq![d@]);
            }
            out
        },
        _ => out,
    }
}

fn read_json_poll(reply: &Json, body: &str) -> (r: GradioPoll)
    ensures
        r@ == json_poll(reply@, body@),
{
    if let Some(data) = reply.get("data") {
        let images = collect_data(data);
        if images.len() > 0 {
            return GradioPoll::Completed(images);
        }
    }
    if let Some(s) = reply.get_str("status") {
        let status = lower_ascii_str(s);
        if contains_str(status.as_str(), "failed") || contains_str(status.as_str(), "error") {
            let mut message = "Gradio generation failed (status: ".to_string();
            message.append(status.as_str());
            message.append("): ");
            message.append(body);
            return GradioPoll::Failed(message);
        }
    }
    GradioPoll::Pending
}

/// Takes the images out of the data of one line.
pub fn images_of_line(read: Result<Json, String>) -> (r: Vec<ImageResponseData>)
    ensures
        image_views(r@) == line_images(parsed_view(read)),
{
    broadcast use {group_json_views, image_views_push};

    let mut out: Vec<ImageResponseData> = Vec::new();
    assert(image_views(out@) =~= Seq::empty());
    match read {
        Ok(Json::Array(items)) => collect_texts(&items),
        Ok(Json::Text(s)) => {
            out.push(image_of_data(s.as_str()));
            assert(image_views(out@) =~= seq![b64_data(s@)]);
            out
        },
        _ => out,
    }
}

fn data_of_line(line: &str) -> (r: Option<&str>)
    ensures
        opt_str_view(r) == line_data(line@),
{
    match strip_prefix_str(trim_str(line), "data:") {
        Some(rest) => {
            let data = trim_str(rest);
            if data.is_empty() || same(data, "[DONE]") {
                None
            } else {
                Some(data)
            }
        },
        None => None,
    }
}

fn read_stream_poll(body: &str) -> (r: GradioPoll)
    ensures
        r@ == stream_poll(body@),
{
    if !contains_str(body, "event: complete") && !contains_str(body, "\"data\"") {
        return GradioPoll::Pending;
    }
    let stream = lines_of(body);
    let ghost all = views(stream@);
    assert(all.skip(0) =~= all);
    for i in 0..stream.len()
        invariant
            all == views(stream@),
            all == lines(body@),
            contains(body@, "event: complete"@) || contains(body@, "\"data\""@),
            stream_images(all) == stream_images(all.skip(i as int)),
    {
        assert(all.skip(i as int)[0] == stream@[i as int]@);
        assert(all.skip(i as int).drop_first() =~= all.skip(i + 1));
        if let Some(data) = data_of_line(stream[i].as_str()) {
            let images = images_of_line(parse(data));
            if images.len() > 0 {
                return GradioPoll::Completed(images);
            }
        }
    }
    GradioPoll::Pending
}

/// Takes the reply to a poll for what it says of the event.
pub fn poll_of_reply(read: Result<Json, String>, body: &str) -> (r: GradioPoll)
    ensures
        r@ == poll_reply(parsed_view(read), body@),
{
    match read {
        Ok(reply) => read_json_poll(&reply, body),
        Err(_) => read_stream_poll(body),
    }
}

/// Reads the body of the reply to a poll.
pub fn read_gradio_poll(body: &str) -> (r: GradioPoll)
    ensures
        r@ == poll_reply(json_parse(body@), body@),
{
    poll_of_reply(parse(body), body)
}

/// The images of a reply from the older address, given what its body reads as.
pub open spec fn alternative_images(read: Result<JsonModel, Seq<char>>) -> Seq<ImageDataModel> {
    match read {
        Ok(reply) => match reply.get_array("data"@) {
            Some(items) => text_images(items),
            None => Seq::empty(),
        },
        Err(_) => Seq::empty(),
    }
}

/// Takes the images out of a reply from the older address.
pub fn images_of_alternative(read: Result<Json, String>) -> (r: Vec<ImageResponseData>)
    ensures
        image_views(r@) == alternative_images(parsed_view(read)),
{
    if let Ok(reply) = &read {
        if let Some(items) = reply.get_array("data") {
            return collect_texts(items);
        }
    }
    let none: Vec<ImageResponseData> = Vec::new();
    assert(image_views(none@) =~= Seq::empty());
    none
}

/// Reads the body of a reply from the older address.
pub fn read_gradio_alternative(body: &str) -> (r: Vec<ImageResponseData>)
    ensures
        image_views(r@) == alternative_images(json_parse(body@)),
{
    images_of_alternative(parse(body))
}

/// Where an event stands: it is polled for the given time, its images are there, or it failed.
#[derive(Debug)]
pub enum GradioJob {
    Polling(u32),
    Completed(Vec<ImageResponseData>),
    Failed(String),
}

pub enum GradioJobModel {
    Polling(u32),
    Completed(Seq<ImageDataModel>),
    Failed(Seq<char>),
}

impl View for GradioJob {
    type V = GradioJobModel;

    open spec fn view(&self) -> GradioJobModel {
        match self {
            GradioJob::Polling(n) => GradioJobModel::Polling(*n),
            GradioJob::Completed(images) => GradioJobModel::Completed(image_views(images@)),
            GradioJob::Failed(e) => GradioJobModel::Failed(e@),
        }
    }
}

/// Where an event stands after the poll with the given number and what the older address had.
pub open spec fn after_poll(
    poll: u32,
    said: GradioPollModel,
    alternative: Seq<ImageDataModel>,
) -> GradioJobModel {
    match said {
        GradioPollModel::Completed(images) => GradioJobModel::Completed(images),
        GradioPollModel::Failed(e) => GradioJobModel::Failed(e),
        GradioPollModel::Pending => if alternative.len() > 0 {
            GradioJobModel::Completed(alternative)
        } else if poll + 1 < GRADIO_MAX_POLLS {
            GradioJobModel::Polling((poll + 1) as u32)
        } else {
            GradioJobModel::Failed("Gradio generation timed out waiting for result (120s)"@)
        },
    }
}

/// Decides how to go on after a poll. The first poll has the number 0.
pub fn advance_gradio_job(poll: u32, said: GradioPoll, alternative: Vec<ImageResponseData>) -> (r:
    GradioJob)
    requires
        poll < GRADIO_MAX_POLLS,
    ensures
        r@ == after_poll(poll, said@, image_views(alternative@)),
{
    match said {
        GradioPoll::Completed(images) => GradioJob::Completed(images),
        GradioPoll::Failed(e) => GradioJob::Failed(e),
        GradioPoll::Pending => if alternative.len() > 0 {
            GradioJob::Completed(alternative)
        } else if poll + 1 < GRADIO_MAX_POLLS {
            GradioJob::Polling(poll + 1)
        } else {
            GradioJob::Failed("Gradio generation timed out waiting for result (120s)".to_string())
        },
    }
}

// ---------------------------------------------------------------------------
// Laws
// ---------------------------------------------------------------------------

/// Where a job stands after a series of checks, the first of which has the given number.
pub open spec fn after_checks(poll: u32, checks: Seq<HordeCheck>) -> HordeJobModel
    decreases checks.len(),
{
    if checks.len() == 0 {
        HordeJobModel::Checking(poll)
    } else {
        match after_check(poll, checks[0]) {
            HordeJobModel::Checking(n) => after_checks(n, checks.drop_first()),
            ended => ended,
        }
    }
}

/// Whatever the checks say, a job is followed up for at most as many checks as there may be. It
/// has timed out then, unless a check said that it is done or failed.
pub proof fn law_horde_job_ends(poll: u32, checks: Seq<HordeCheck>)
    requires
        poll < HORDE_MAX_POLLS,
        checks.len() >= HORDE_MAX_POLLS - poll,
    ensures
        !(after_checks(poll, checks) is Checking),
        (forall|i: int|
            0 <= i < checks.len() ==> !(#[trigger] checks[i]).done && !checks[i].faulted)
            ==> after_checks(poll, checks) == HordeJobModel::Failed(
            "AI Horde generation timed out after 10 minutes."@,
        ),
    decreases checks.len(),
{
    let rest = checks.drop_first();
    assert(!checks[0].done && !checks[0].faulted || after_check(poll, checks[0]) !is Checking);
    if after_check(poll, checks[0]) is Checking {
        law_horde_job_ends((poll + 1) as u32, rest);
        if forall|i: int|
            0 <= i < checks.len() ==> !(#[trigger] checks[i]).done && !checks[i].faulted {
            assert forall|i: int| 0 <= i < rest.len() implies !(#[trigger] rest[i]).done
                && !rest[i].faulted by {
                assert(rest[i] == checks[i + 1]);
            }
        }
    }
}

/// What a poll and the older address say of an event.
pub struct PollModel {
    pub said: GradioPollModel,
    pub alternative: Seq<ImageDataModel>,
}

/// Where an event stands after a series of polls, the first of which has the given number.
pub open spec fn after_polls(poll: u32, polls: Seq<PollModel>) -> GradioJobModel
    decreases polls.len(),
{
    if polls.len() == 0 {
        GradioJobModel::Polling(poll)
    } else {
        match after_poll(poll, polls[0].said, polls[0].alternative) {
            GradioJobModel::Polling(n) => after_polls(n, polls.drop_first()),
            ended => ended,
        }
    }
}

/// Whether a poll leaves it open what becomes of an event.
pub open spec fn is_open(poll: PollModel) -> bool {
    poll.said is Pending && poll.alternative.len() == 0
}

/// Whatever the polls say, an event is followed up for at most as many polls as there may be. It
/// has timed out then, unless a poll or the older address told more.
pub proof fn law_gradio_job_ends(poll: u32, polls: Seq<PollModel>)
    requires
        poll < GRADIO_MAX_POLLS,
        polls.len() >= GRADIO_MAX_POLLS - poll,
    ensures
        !(after_polls(poll, polls) is Polling),
        (forall|i: int| 0 <= i < polls.len() ==> is_open(#[trigger] polls[i])) ==> after_polls(
            poll,
            polls,
        ) == GradioJobModel::Failed("Gradio generation timed out waiting for result (120s)"@),
    decreases polls.len(),
{
    let rest = polls.drop_first();
    assert(is_open(polls[0]) || after_poll(poll, polls[0].said, polls[0].alternative) !is Polling);
    if after_poll(poll, polls[0].said, polls[0].alternative) is Polling {
        law_gradio_job_ends((poll + 1) as u32, rest);
        if forall|i: int| 0 <= i < polls.len() ==> is_open(#[trigger] polls[i]) {
            assert forall|i: int| 0 <= i < rest.len() implies is_open(#[trigger] rest[i]) by {
                assert(rest[i] == polls[i + 1]);
            }
        }
    }
}

/// An event is completed only with an image.
pub proof fn law_completed_event_has_images(read: Result<JsonModel, Seq<char>>, body: Seq<char>)
    ensures
        poll_reply(read, body) matches GradioPollModel::Completed(images) ==> images.len() > 0,
{
}

/// The first check that says something decides: the images of a job that is done can be fetched,
/// and a job that failed has failed for the reason that the check gives. Up to three hundred
/// checks are made, so a job that is done at the last of them is not lost.
pub proof fn law_first_telling_check_decides(poll: u32, checks: Seq<HordeCheck>, at: int)
    requires
        0 <= at < checks.len(),
        poll + at < 300,
        forall|i: int| 0 <= i < at ==> !(#[trigger] checks[i]).done && !checks[i].faulted,
    ensures
        checks[at].done && !checks[at].faulted ==> after_checks(poll, checks) is Completed,
        checks[at].faulted ==> match checks[at].message {
            Some(m) => after_checks(poll, checks) == HordeJobModel::Failed(m@),
            None => after_checks(poll, checks) == HordeJobModel::Failed(
                "AI Horde generation failed."@,
            ),
        },
        !checks[at].done && !checks[at].faulted && poll + at + 1 < 300 && checks.len() == at + 1
            ==> after_checks(poll, checks) == HordeJobModel::Checking((poll + at + 1) as u32),
        !checks[at].done && !checks[at].faulted && poll + at + 1 == 300 ==> after_checks(
            poll,
            checks,
        ) == HordeJobModel::Failed("AI Horde generation timed out after 10 minutes."@),
    decreases at,
{
    if at > 0 {
        let rest = checks.drop_first();
        assert(!checks[0].done && !checks[0].faulted);
        assert forall|i: int| 0 <= i < at - 1 implies !(#[trigger] rest[i]).done
            && !rest[i].faulted by {
            assert(rest[i] == checks[i + 1]);
        }
        assert(rest[at - 1] == checks[at]);
        law_first_telling_check_decides((poll + 1) as u32, rest, at - 1);
    } else {
        reveal_with_fuel(after_checks, 2);
    }
}

/// The images of a job are those of its generations, in their order: the link of each that was
/// not censored and has one. A job without any has failed.
pub proof fn law_job_images(
    a: Seq<HordeGeneration>,
    b: Seq<HordeGeneration>,
    g: HordeGeneration,
    status: HordeStatus,
)
    ensures
        generation_images(a + b) == generation_images(a) + generation_images(b),
        match g.img {
            Some(url) if !g.censored && trim(url@).len() > 0 => generation_images(seq![g])
                == seq![(ImageDataModel { url: Some(url@), b64_json: None, text: None })],
            _ => generation_images(seq![g]).len() == 0,
        },
        job_images(status) is Ok <==> !status.faulted && generation_images(
            status.generations@,
        ).len() > 0,
        job_images(status) matches Ok(images) ==> images == generation_images(status.generations@),
        status.faulted ==> match status.message {
            Some(m) => job_images(status) == Err::<Seq<ImageDataModel>, Seq<char>>(m@),
            None => job_images(status) == Err::<Seq<ImageDataModel>, Seq<char>>(
                "AI Horde generation failed."@,
            ),
        },
    decreases b.len(),
{
    reveal_with_fuel(generation_images, 2);
    assert(seq![g].drop_last() =~= Seq::empty());
    if b.len() == 0 {
        assert(a + b =~= a);
        assert(generation_images(a) + generation_images(b) =~= generation_images(a));
    } else {
        law_job_images(a, b.drop_last(), g, status);
        assert((a + b).drop_last() =~= a + b.drop_last());
        assert((a + b).last() == b.last());
        assert(generation_images(a + b) =~= generation_images(a) + generation_images(b));
    }
}

/// The first poll that says something decides, or else the first that finds images at the older
/// address. Up to two hundred and forty polls are made.
pub proof fn law_first_telling_poll_decides(poll: u32, polls: Seq<PollModel>, at: int)
    requires
        0 <= at < polls.len(),
        poll + at < 240,
        forall|i: int|
            0 <= i < at ==> (#[trigger] polls[i]).said is Pending && polls[i].alternative.len()
                == 0,
    ensures
        polls[at].said matches GradioPollModel::Completed(images) ==> after_polls(poll, polls)
            == GradioJobModel::Completed(images),
        polls[at].said matches GradioPollModel::Failed(e) ==> after_polls(poll, polls)
            == GradioJobModel::Failed(e),
        polls[at].said is Pending && polls[at].alternative.len() > 0 ==> after_polls(poll, polls)
            == GradioJobModel::Completed(polls[at].alternative),
        polls[at].said is Pending && polls[at].alternative.len() == 0 && poll + at + 1 < 240
            && polls.len() == at + 1 ==> after_polls(poll, polls) == GradioJobModel::Polling(
            (poll + at + 1) as u32,
        ),
    decreases at,
{
    if at > 0 {
        let rest = polls.drop_first();
        assert(is_open(polls[0]));
        assert forall|i: int| 0 <= i < at - 1 implies (#[trigger] rest[i]).said is Pending
            && rest[i].alternative.len() == 0 by {
            assert(rest[i] == polls[i + 1]);
        }
        assert(rest[at - 1] == polls[at]);
        law_first_telling_poll_decides((poll + 1) as u32, rest, at - 1);
    } else {
        reveal_with_fuel(after_polls, 2);
    }
}

/// The images of the data of a reply are those of its items, in their order. A link is an image
/// that can be fetched, and so is an item with a link as its `url`; any longer text holds the
/// image itself, as does the `data` of an item without a `url`.
pub proof fn law_data_of_a_poll(a: Seq<JsonModel>, b: Seq<JsonModel>, item: JsonModel, s: Seq<char>)
    ensures
        data_images(JsonModel::Array(a + b)) == data_images(JsonModel::Array(a)) + data_images(
            JsonModel::Array(b),
        ),
        data_images(JsonModel::Array(seq![JsonModel::Text(s)])) == if starts_with(
            trim(s),
            "http://"@,
        ) || starts_with(trim(s), "https://"@) {
            seq![(ImageDataModel { url: Some(trim(s)), b64_json: None, text: None })]
        } else if byte_len(trim(s)) > 20 {
            seq![(ImageDataModel { url: None, b64_json: Some(trim(s)), text: None })]
        } else {
            Seq::empty()
        },
        item is Object && (item.get_str("url"@) == Some(s) || item.get_str("url"@) is None
            && item.get_str("data"@) == Some(s)) ==> data_images(JsonModel::Array(seq![item]))
            == if starts_with(s, "http://"@) || starts_with(s, "https://"@) {
            seq![(ImageDataModel { url: Some(s), b64_json: None, text: None })]
        } else if byte_len(s) > 20 {
            seq![(ImageDataModel { url: None, b64_json: Some(s), text: None })]
        } else {
            Seq::empty()
        },
        data_images(JsonModel::Text(s)) == if trim(s).len() == 0 {
            Seq::empty()
        } else if starts_with(trim(s), "http"@) {
            seq![(ImageDataModel { url: Some(trim(s)), b64_json: None, text: None })]
        } else {
            seq![(ImageDataModel { url: None, b64_json: Some(trim(s)), text: None })]
        },
    decreases b.len(),
{
    reveal_with_fuel(item_images, 2);
    let text = JsonModel::Text(s);
    assert(seq![text].drop_last() =~= Seq::empty());
    assert(seq![item].drop_last() =~= Seq::empty());
    if b.len() == 0 {
        assert(a + b =~= a);
        assert(item_images(a) + item_images(b) =~= item_images(a));
    } else {
        law_data_of_a_poll(a, b.drop_last(), item, s);
        assert((a + b).drop_last() =~= a + b.drop_last());
        assert((a + b).last() == b.last());
        assert(item_images(a + b) =~= item_images(a) + item_images(b));
    }
    if item.get_str("url"@) == Some(s) || item.get_str("data"@) == Some(s) {
        assert(item is Object ==> item_text(item) == s || item.get_str("url"@) is Some);
    }
}

/// The images of the data of a line are those of its texts, in their order.
pub proof fn law_data_of_a_line(a: Seq<JsonModel>, b: Seq<JsonModel>, s: Seq<char>)
    ensures
        ({
            let images = |items: Seq<JsonModel>|
                line_images(Ok::<JsonModel, Seq<char>>(JsonModel::Array(items)));
            &&& images(a + b) == images(a) + images(b)
            &&& images(seq![JsonModel::Text(s)]) == if trim(s).len() == 0 {
                Seq::empty()
            } else if starts_with(trim(s), "http"@) {
                seq![(ImageDataModel { url: Some(trim(s)), b64_json: None, text: None })]
            } else {
                seq![(ImageDataModel { url: None, b64_json: Some(trim(s)), text: None })]
            }
        }),
        line_images(Ok::<JsonModel, Seq<char>>(JsonModel::Text(s))) == seq![
            (ImageDataModel { url: None, b64_json: Some(s), text: None }),
        ],
    decreases b.len(),
{
    reveal_with_fuel(text_images, 2);
    let text = JsonModel::Text(s);
    assert(seq![text].drop_last() =~= Seq::empty());
    if b.len() == 0 {
        assert(a + b =~= a);
        assert(text_images(a) + text_images(b) =~= text_images(a));
    } else {
        law_data_of_a_line(a, b.drop_last(), s);
        assert((a + b).drop_last() =~= a + b.drop_last());
        assert((a + b).last() == b.last());
        assert(text_images(a + b) =~= text_images(a) + text_images(b));
    }
}

/// What stands behind `data:` in a line of a stream is its data, whatever space is about it. The
/// word that ends a stream is no data, nor is a line that says something else.
pub proof fn law_line_data(before: Seq<char>, data: Seq<char>, line: Seq<char>)
    ensures
        trim(line) == "data:"@ + before + data && (forall|i: int|
            0 <= i < before.len() ==> #[trigger] crate::text::is_white(before[i])) && trim(data)
            == data && data.len() > 0 && data != "[DONE]"@ ==> line_data(line) == Some(data),
        line_data("data: [DONE]"@) is None,
        !starts_with(trim(line), "data:"@) ==> line_data(line) is None,
{
    let rest = before + data;
    if trim(line) == "data:"@ + before + data && (forall|i: int|
        0 <= i < before.len() ==> #[trigger] crate::text::is_white(before[i])) && trim(data)
        == data && data.len() > 0 {
        assert("data:"@ + before + data =~= "data:"@ + rest);
        assert(trim(line).take("data:"@.len() as int) =~= "data:"@);
        assert(trim(line).skip("data:"@.len() as int) =~= rest);
        crate::text::lemma_trim_white(before, data, Seq::empty());
        assert(before + data + Seq::<char>::empty() =~= rest);
    }
    reveal_strlit("data:");
    reveal_strlit("data: [DONE]");
    reveal_strlit("[DONE]");
    let done = "data: [DONE]"@;
    let space = seq![' '];
    crate::text::lemma_trim_ascii(done);
    crate::text::lemma_trim_ascii("[DONE]"@);
    assert(done.take("data:"@.len() as int) =~= "data:"@);
    assert(done.skip("data:"@.len() as int) =~= space + "[DONE]"@ + Seq::<char>::empty());
    crate::text::lemma_trim_white(space, "[DONE]"@, Seq::empty());
}

/// Lines without images change nothing of what a stream brings, and the first line with images
/// brings it all.
pub proof fn law_first_line_with_images(
    before: Seq<Seq<char>>,
    line: Seq<char>,
    behind: Seq<Seq<char>>,
    data: Seq<char>,
)
    requires
        stream_images(before).len() == 0,
        line_data(line) == Some(data),
        line_images(json_parse(data)).len() > 0,
    ensures
        stream_images(before + seq![line] + behind) == line_images(json_parse(data)),
    decreases before.len(),
{
    let all = before + seq![line] + behind;
    if before.len() > 0 {
        assert(all[0] == before[0]);
        assert(all.drop_first() =~= before.drop_first() + seq![line] + behind);
        law_first_line_with_images(before.drop_first(), line, behind, data);
    } else {
        assert(all[0] == line);
    }
}

/// A reply with images completes an event, whatever else it says. Without images it fails an
/// event where its status speaks of a failure or an error, in small letters or large, and says
/// nothing otherwise.
pub proof fn law_reply_to_a_poll(reply: JsonModel, body: Seq<char>, data: JsonModel, s: Seq<char>)
    ensures
        reply.get("data"@) == Some(data) && data_images(data).len() > 0 ==> poll_reply(
            Ok(reply),
            body,
        ) == GradioPollModel::Completed(data_images(data)),
        (reply.get("data"@) is None || reply.get("data"@) == Some(data) && data_images(data).len()
            == 0) ==> {
            &&& reply.get_str("status"@) == Some(s) && (contains(lower_ascii(s), "failed"@)
                || contains(lower_ascii(s), "error"@)) ==> poll_reply(Ok(reply), body)
                == GradioPollModel::Failed(
                "Gradio generation failed (status: "@ + lower_ascii(s) + "): "@ + body,
            )
            &&& reply.get_str("status"@) == Some(s) && !contains(lower_ascii(s), "failed"@)
                && !contains(lower_ascii(s), "error"@) ==> poll_reply(Ok(reply), body) is Pending
            &&& reply.get_str("status"@) is None ==> poll_reply(Ok(reply), body) is Pending
        },
{
}

/// A stream brings the images of its lines once it tells that the event is complete or that there
/// is data.
pub proof fn law_stream_of_a_poll(read: Seq<char>, body: Seq<char>)
    ensures
        ({
            let said = poll_reply(Err::<JsonModel, Seq<char>>(read), body);
            let images = stream_images(lines(body));
            &&& images.len() == 0 ==> said is Pending
            &&& images.len() > 0 && contains(body, "event: complete"@) ==> said
                == GradioPollModel::Completed(images)
            &&& images.len() > 0 && contains(body, "\"data\""@) ==> said
                == GradioPollModel::Completed(images)
            &&& !contains(body, "event: complete"@) && !contains(body, "\"data\""@) ==> said
                is Pending
        }),
{
}

/// A function whose name is written with slashes about it is polled under its bare name, and one
/// without a name under the usual one. A key goes along as a bearer token.
pub proof fn law_polled_under_its_name(name: Seq<char>, key: Seq<char>)
    ensures
        name.len() > 0 && trim(name) == name && name[0] != '/' && name.last() != '/' ==> {
            &&& polled_endpoint(name) == name
            &&& polled_endpoint(seq!['/'] + name) == name
            &&& polled_endpoint(seq!['/'] + name + seq!['/']) == name
        },
        polled_endpoint(Seq::empty()) == "predict"@,
        polled_endpoint(seq!['/']) == "predict"@,
        trim(key).len() > 0 ==> poll_authorization(key) == Some("Bearer "@ + trim(key)),
        trim(key).len() == 0 ==> poll_authorization(key) is None,
{
    reveal_with_fuel(crate::text::trim_start_of, 2);
    reveal_with_fuel(crate::text::trim_end_of, 2);
    let one = seq!['/'];
    assert(one.drop_first() =~= Seq::empty());
    if name.len() > 0 && trim(name) == name && name[0] != '/' && name.last() != '/' {
        let front = one + name;
        let both = front + one;
        assert(front.drop_first() =~= name);
        assert(both.drop_first() =~= name + one);
        assert((name + one).drop_last() =~= name);
        assert((name + one)[0] == name[0]);
    }
}

/// The older address brings the images of the texts of its data, and nothing where it has none.
pub proof fn law_older_address(reply: JsonModel, items: Seq<JsonModel>, e: Seq<char>)
    ensures
        reply.get_array("data"@) == Some(items) ==> alternative_images(Ok(reply)) == line_images(
            Ok(JsonModel::Array(items)),
        ),
        reply.get_array("data"@) is None ==> alternative_images(Ok(reply)).len() == 0,
        alternative_images(Err(e)).len() == 0,
{
}

} // verus!
